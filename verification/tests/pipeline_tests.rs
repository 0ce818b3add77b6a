use laptop_backup::archive::{zip_files_in_folder, ArchiveStage};
use laptop_backup::encrypt::{encrypt_file, EncryptStage};
use laptop_backup::mirror::{backup_directory_contents, Entry, EntryKind, Outcome, Task};

#[test]
fn one_source_is_mirrored_archived_and_encrypted() {
    let root = "laptop-backup";
    let mut staged: Vec<(String, String)> = Vec::new();
    let mut created: Vec<String> = Vec::new();

    let mut walk = match backup_directory_contents("/tmp/a", EntryKind::Directory, root) {
        Ok(walk) => walk,
        Err(error) => panic!("the walk did not start: {:?}", error),
    };
    while let Some(task) = walk.next_task() {
        match task {
            Task::CreateDir { dir } => {
                created.push(dir);
                walk.report(Outcome::Done);
            }
            Task::List { dir } => {
                assert_eq!(dir, "/tmp/a");
                walk.report(Outcome::Listed(vec![Entry {
                    path: "/tmp/a/x.txt".to_string(),
                    kind: EntryKind::RegularFile,
                    same_as_parent: false,
                }]));
            }
            Task::Copy { from, to } => {
                assert_eq!(from, "/tmp/a/x.txt");
                staged.push((to, "hi".to_string()));
                walk.report(Outcome::Done);
            }
        }
    }
    assert_eq!(walk.failure(), None);
    assert_eq!(created, vec!["laptop-backup/tmp/a".to_string()]);
    assert_eq!(staged, vec![("laptop-backup/tmp/a/x.txt".to_string(), "hi".to_string())]);

    let mut archiving = zip_files_in_folder(root);
    let mut staging_exists = true;
    let mut archive_exists = false;
    while archiving.result().is_none() {
        match archiving.stage {
            ArchiveStage::Finish => archive_exists = true,
            ArchiveStage::RemoveStaging => staging_exists = false,
            _ => {}
        }
        archiving.report(true);
    }
    let archive = archiving.result().unwrap().unwrap();
    assert!(archive_exists);
    assert!(!staging_exists);
    assert!(archive.starts_with("laptop-backup-"));
    assert!(archive.ends_with(".tar"));

    let key = "age1t7rxyev2z3rw82stdlrrepyc39nvn86l5078zqkf5uasdy86jp6svpy7pa";
    let mut encryption = match encrypt_file(&archive, key) {
        Ok(job) => job,
        Err(error) => panic!("the key was refused: {:?}", error),
    };
    let mut encrypted_exists = false;
    while encryption.result().is_none() {
        match encryption.stage {
            EncryptStage::WriteOutput => encrypted_exists = true,
            EncryptStage::RemovePlaintext => archive_exists = false,
            _ => {}
        }
        encryption.report(true);
    }
    assert_eq!(encryption.result(), Some(Ok(())));
    assert!(encrypted_exists);
    assert!(!archive_exists);
    assert_eq!(encryption.output, format!("{}.age", archive));
}

#[test]
fn invalid_key_asks_for_no_step() {
    let archive = "laptop-backup-2024-01-02_03-04-05.tar";
    assert!(encrypt_file(archive, "age1invalid").is_err());
}
