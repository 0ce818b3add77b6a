//! The list of source paths as it is written down: one path on each line.

use vstd::prelude::*;
use vstd::string::*;

verus! {

/// The length of the first line of `text`: the index of its first line
/// break, or the length of `text` where it holds none.
pub open spec fn first_line_len(text: Seq<char>) -> int
    decreases text.len(),
{
    if text.len() == 0 || text[0] == '\n' {
        0
    } else {
        1 + first_line_len(text.skip(1))
    }
}

/// A line without the carriage return that may stand before its line break.
pub open spec fn without_return(line: Seq<char>) -> Seq<char> {
    if line.len() > 0 && line.last() == '\r' {
        line.drop_last()
    } else {
        line
    }
}

/// The lines of `text`, in order. A line ends at a line break, or at a
/// carriage return directly followed by one; neither belongs to the line.
/// What follows the last line break is a line too, taken as it stands, unless
/// it is empty.
pub open spec fn lines_of(text: Seq<char>) -> Seq<Seq<char>>
    decreases text.len(),
{
    let k = first_line_len(text);
    if text.len() == 0 {
        Seq::empty()
    } else if 0 <= k < text.len() {
        seq![without_return(text.take(k))] + lines_of(text.skip(k + 1))
    } else {
        seq![text]
    }
}

/// The views of a list of strings.
pub open spec fn texts(strings: Seq<String>) -> Seq<Seq<char>> {
    strings.map_values(|s: String| s@)
}

/// The first line ends at the first line break.
pub proof fn lemma_first_line_len(text: Seq<char>, k: int)
    requires
        0 <= k <= text.len(),
        forall|j: int| 0 <= j < k ==> text[j] != '\n',
        k == text.len() || text[k] == '\n',
    ensures
        first_line_len(text) == k,
    decreases k,
{
    if k > 0 {
        lemma_first_line_len(text.skip(1), k - 1);
    }
}

/// A text without a line break is one line, or none where it is empty.
pub proof fn lemma_single_line(text: Seq<char>)
    requires
        forall|j: int| 0 <= j < text.len() ==> text[j] != '\n',
    ensures
        lines_of(text) == if text.len() == 0 {
            Seq::<Seq<char>>::empty()
        } else {
            seq![text]
        },
{
    lemma_first_line_len(text, text.len() as int);
}

/// The source paths that `contents` lists, one on each line, in order.
pub fn load_paths_from_file(contents: &str) -> (paths: Vec<String>)
    ensures
        texts(paths@) == lines_of(contents@),
{
    let n: usize = contents.unicode_len();
    let mut paths: Vec<String> = Vec::new();
    let mut start: usize = 0;
    let mut i: usize = 0;
    proof {
        assert(contents@.skip(0) =~= contents@);
        assert(texts(paths@) + lines_of(contents@) =~= lines_of(contents@));
    }
    while i < n
        invariant
            start <= i <= n,
            n == contents@.len(),
            forall|j: int| start <= j < i ==> contents@[j] != '\n',
            lines_of(contents@) == texts(paths@) + lines_of(contents@.skip(start as int)),
        decreases n - i,
    {
        if contents.get_char(i) == '\n' {
            let end: usize = if i > start && contents.get_char(i - 1) == '\r' {
                i - 1
            } else {
                i
            };
            let line: String = String::from_str(contents.substring_char(start, end));
            proof {
                let rest = contents@.skip(start as int);
                let k = i - start;
                lemma_first_line_len(rest, k);
                assert(rest.skip(k + 1) =~= contents@.skip(i + 1));
                assert(line@ =~= without_return(rest.take(k)));
                assert(texts(paths@.push(line)) + lines_of(contents@.skip(i + 1)) =~= texts(paths@)
                    + lines_of(rest));
            }
            paths.push(line);
            start = i + 1;
        }
        i = i + 1;
    }
    if start < n {
        let line: String = String::from_str(contents.substring_char(start, n));
        proof {
            let rest = contents@.skip(start as int);
            lemma_single_line(rest);
            assert(line@ =~= rest);
            assert(texts(paths@.push(line)) =~= texts(paths@) + lines_of(rest));
        }
        paths.push(line);
    } else {
        proof {
            assert(texts(paths@) + lines_of(contents@.skip(start as int)) =~= texts(paths@));
        }
    }
    paths
}

} // verus!
