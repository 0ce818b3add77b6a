use laptop_backup::archive::{
    archive_file_name, archiving_at, next_stage, zip_files_in_folder, ArchiveError, ArchiveStage,
};

#[test]
fn archive_is_named_after_root_and_time() {
    assert_eq!(
        archive_file_name("laptop-backup", "2024-01-02_03-04-05"),
        "laptop-backup-2024-01-02_03-04-05.tar"
    );
    assert_eq!(archive_file_name("", ""), "-.tar");
}

#[test]
fn archiving_begins_with_creating_the_file() {
    let job = archiving_at("staging", "2031-12-31_23-59-59".to_string());
    assert_eq!(job.folder, "staging");
    assert_eq!(job.timestamp, "2031-12-31_23-59-59");
    assert_eq!(job.archive_path, "staging-2031-12-31_23-59-59.tar");
    assert_eq!(job.stage, ArchiveStage::CreateFile);
    assert_eq!(job.result(), None);
}

#[test]
fn archiving_now_stamps_the_local_time() {
    let job = zip_files_in_folder("laptop-backup");
    assert_eq!(job.folder, "laptop-backup");
    assert_eq!(job.stage, ArchiveStage::CreateFile);
    assert_eq!(job.archive_path, format!("laptop-backup-{}.tar", job.timestamp));
    assert_ne!(job.timestamp, "%Y-%m-%d_%H-%M-%S");
    let stamp: Vec<char> = job.timestamp.chars().collect();
    assert_eq!(stamp.len(), 19);
    for (i, c) in stamp.iter().enumerate() {
        match i {
            4 | 7 | 13 | 16 => assert_eq!(*c, '-'),
            10 => assert_eq!(*c, '_'),
            _ => assert!(c.is_ascii_digit()),
        }
    }
}

#[test]
fn archiving_removes_the_staging_tree_last() {
    let mut job = archiving_at("laptop-backup", "t".to_string());
    job.report(true);
    assert_eq!(job.stage, ArchiveStage::AppendTree);
    job.report(true);
    assert_eq!(job.stage, ArchiveStage::Finish);
    assert_eq!(job.result(), None);
    job.report(true);
    assert_eq!(job.stage, ArchiveStage::RemoveStaging);
    assert_eq!(job.result(), None);
    job.report(true);
    assert_eq!(job.stage, ArchiveStage::Complete { staging_removed: true });
    assert_eq!(job.result(), Some(Ok("laptop-backup-t.tar".to_string())));
    job.report(false);
    assert_eq!(job.stage, ArchiveStage::Complete { staging_removed: true });
}

#[test]
fn failed_cleanup_keeps_the_archive() {
    let mut job = archiving_at("laptop-backup", "t".to_string());
    job.report(true);
    job.report(true);
    job.report(true);
    job.report(false);
    assert_eq!(job.stage, ArchiveStage::Complete { staging_removed: false });
    assert_eq!(job.result(), Some(Ok("laptop-backup-t.tar".to_string())));
}

#[test]
fn failed_create_leaves_the_staging_tree() {
    let mut job = archiving_at("laptop-backup", "t".to_string());
    job.report(false);
    assert_eq!(job.stage, ArchiveStage::Failed(ArchiveError::CreateFailed));
    assert_eq!(job.result(), Some(Err(ArchiveError::CreateFailed)));
    job.report(true);
    assert_eq!(job.stage, ArchiveStage::Failed(ArchiveError::CreateFailed));
}

#[test]
fn failed_append_leaves_the_staging_tree() {
    let mut job = archiving_at("laptop-backup", "t".to_string());
    job.report(true);
    job.report(false);
    assert_eq!(job.result(), Some(Err(ArchiveError::AppendFailed)));
    job.report(true);
    assert_eq!(job.stage, ArchiveStage::Failed(ArchiveError::AppendFailed));
}

#[test]
fn failed_finish_leaves_the_staging_tree() {
    let mut job = archiving_at("laptop-backup", "t".to_string());
    job.report(true);
    job.report(true);
    job.report(false);
    assert_eq!(job.result(), Some(Err(ArchiveError::FinishFailed)));
    job.report(true);
    assert_eq!(job.stage, ArchiveStage::Failed(ArchiveError::FinishFailed));
}

#[test]
fn archive_stages_follow_one_another() {
    assert_eq!(next_stage(ArchiveStage::CreateFile, true), ArchiveStage::AppendTree);
    assert_eq!(next_stage(ArchiveStage::AppendTree, true), ArchiveStage::Finish);
    assert_eq!(next_stage(ArchiveStage::Finish, true), ArchiveStage::RemoveStaging);
    assert_eq!(
        next_stage(ArchiveStage::RemoveStaging, true),
        ArchiveStage::Complete { staging_removed: true }
    );
    assert_eq!(
        next_stage(ArchiveStage::Complete { staging_removed: false }, true),
        ArchiveStage::Complete { staging_removed: false }
    );
}
