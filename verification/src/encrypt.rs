//! Encrypting the archive for one recipient: the key, the name of the
//! encrypted file, and the order of the steps that write it and remove the
//! plaintext.

use vstd::prelude::*;
use vstd::string::*;

verus! {

/// An X25519 recipient of the age format: a parsed public key.
#[verifier::external_type_specification]
#[verifier::external_body]
pub struct ExRecipient(age::x25519::Recipient);

/// Whether `public_key` is the text of one age X25519 recipient, as
/// `age::x25519::Recipient`'s `from_str` judges it.
pub uninterp spec fn recipient_key_is_valid(public_key: Seq<char>) -> bool;

/// The extension that the encrypted file has on top of the archive's name,
/// with its dot.
pub open spec fn encrypted_extension() -> Seq<char> {
    seq!['.', 'a', 'g', 'e']
}

/// The encrypted file's path: the input's path with one more extension.
pub open spec fn encrypted_name(input: Seq<char>) -> Seq<char> {
    input + encrypted_extension()
}

/// Why there is no encrypted file, or why the plaintext is still there.
#[derive(Clone, Copy, Debug, PartialEq, Eq, Structural)]
pub enum EncryptError {
    /// The public key is not the text of a recipient.
    InvalidInput,
    /// The encrypted file could not be written in full.
    WriteFailed,
    /// The encrypted file is written, but the plaintext could not be removed.
    RemoveFailed,
}

/// Where the encryption stands: the step that the caller is to perform next,
/// or how it ended.
#[derive(Clone, Copy, Debug, PartialEq, Eq, Structural)]
pub enum EncryptStage {
    /// Stream the input through the encryption into the output file and
    /// finalise it.
    WriteOutput,
    /// Remove the plaintext input.
    RemovePlaintext,
    /// The encrypted file is written and the plaintext is gone.
    Complete,
    Failed(EncryptError),
}

/// The stage that follows `stage` once the caller reports whether the step
/// went well.
pub open spec fn encrypt_step(stage: EncryptStage, ok: bool) -> EncryptStage {
    match stage {
        EncryptStage::WriteOutput => if ok {
            EncryptStage::RemovePlaintext
        } else {
            EncryptStage::Failed(EncryptError::WriteFailed)
        },
        EncryptStage::RemovePlaintext => if ok {
            EncryptStage::Complete
        } else {
            EncryptStage::Failed(EncryptError::RemoveFailed)
        },
        EncryptStage::Complete => stage,
        EncryptStage::Failed(_) => stage,
    }
}

/// The plaintext is removed only once the encrypted file was written in
/// full, and a failure is final: after it no step is asked for.
pub proof fn lemma_plaintext_outlives_failure(stage: EncryptStage, ok: bool)
    ensures
        encrypt_step(stage, ok) is RemovePlaintext ==> stage is WriteOutput && ok,
        stage is Failed ==> encrypt_step(stage, ok) == stage,
        encrypt_step(stage, ok) is Complete ==> (stage is RemovePlaintext && ok)
            || stage is Complete,
{
}

/// One encryption of a file for one recipient.
pub struct Encryption {
    /// The plaintext file.
    pub input: String,
    /// The encrypted file.
    pub output: String,
    /// The recipient for whom the output is encrypted.
    pub recipient: age::x25519::Recipient,
    pub stage: EncryptStage,
}

/// `age::x25519::Recipient`'s `from_str` on `public_key`: the recipient, or
/// age's word on why the text is none. Whether it succeeds depends on the
/// text alone.
#[verifier::external_body]
fn parse_recipient(public_key: &str) -> (parsed: Result<age::x25519::Recipient, &'static str>)
    ensures
        parsed is Ok == recipient_key_is_valid(public_key@),
{
    public_key.parse::<age::x25519::Recipient>()
}

/// The path of the encrypted sibling of `input_file_path`.
pub fn encrypted_file_name(input_file_path: &str) -> (name: String)
    ensures
        name@ == encrypted_name(input_file_path@),
{
    let mut name: String = String::from_str(input_file_path);
    proof {
        reveal_strlit(".age");
        assert(".age"@ =~= encrypted_extension());
    }
    name.append(".age");
    name
}

/// The encryption of `input_file_path` for the recipient that parsing the
/// key gave, or invalid input where parsing gave none. Nothing is done yet:
/// without a recipient no step is ever asked for, so the input stays as it
/// is.
pub fn plan_encryption(
    input_file_path: &str,
    parsed: Result<age::x25519::Recipient, &'static str>,
) -> (job: Result<Encryption, EncryptError>)
    ensures
        job is Ok == parsed is Ok,
        job is Err ==> job->Err_0 == EncryptError::InvalidInput,
        job is Ok ==> {
            &&& job->Ok_0.input@ == input_file_path@
            &&& job->Ok_0.output@ == encrypted_name(input_file_path@)
            &&& job->Ok_0.recipient == parsed->Ok_0
            &&& job->Ok_0.stage == EncryptStage::WriteOutput
        },
{
    match parsed {
        Ok(recipient) => Ok(
            Encryption {
                input: String::from_str(input_file_path),
                output: encrypted_file_name(input_file_path),
                recipient,
                stage: EncryptStage::WriteOutput,
            },
        ),
        Err(_) => Err(EncryptError::InvalidInput),
    }
}

/// Begins the encryption of `input_file_path` for the recipient whose public
/// key is `public_key`.
///
/// A key that is not the text of a recipient is invalid input: no step is
/// asked for, so the input stays as it is.
pub fn encrypt_file(input_file_path: &str, public_key: &str) -> (job: Result<
    Encryption,
    EncryptError,
>)
    ensures
        job is Ok == recipient_key_is_valid(public_key@),
        job is Err ==> job->Err_0 == EncryptError::InvalidInput,
        job is Ok ==> {
            &&& job->Ok_0.input@ == input_file_path@
            &&& job->Ok_0.output@ == encrypted_name(input_file_path@)
            &&& job->Ok_0.stage == EncryptStage::WriteOutput
        },
{
    plan_encryption(input_file_path, parse_recipient(public_key))
}

impl Encryption {
    /// Takes in whether the step asked for went well, and moves on.
    pub fn report(&mut self, ok: bool)
        ensures
            final(self).stage == encrypt_step(old(self).stage, ok),
            final(self).input == old(self).input,
            final(self).output == old(self).output,
            final(self).recipient == old(self).recipient,
    {
        self.stage = next_stage(self.stage, ok);
    }

    /// How the encryption ended. `None` while a step is still owed.
    pub fn result(&self) -> (result: Option<Result<(), EncryptError>>)
        ensures
            result == match self.stage {
                EncryptStage::Complete => Some(Ok::<(), EncryptError>(())),
                EncryptStage::Failed(error) => Some(Err::<(), EncryptError>(error)),
                _ => None,
            },
    {
        match self.stage {
            EncryptStage::Complete => Some(Ok(())),
            EncryptStage::Failed(error) => Some(Err(error)),
            _ => None,
        }
    }
}

/// The stage that follows `stage`.
pub fn next_stage(stage: EncryptStage, ok: bool) -> (next: EncryptStage)
    ensures
        next == encrypt_step(stage, ok),
{
    match stage {
        EncryptStage::WriteOutput => if ok {
            EncryptStage::RemovePlaintext
        } else {
            EncryptStage::Failed(EncryptError::WriteFailed)
        },
        EncryptStage::RemovePlaintext => if ok {
            EncryptStage::Complete
        } else {
            EncryptStage::Failed(EncryptError::RemoveFailed)
        },
        EncryptStage::Complete => EncryptStage::Complete,
        EncryptStage::Failed(error) => EncryptStage::Failed(error),
    }
}

} // verus!
