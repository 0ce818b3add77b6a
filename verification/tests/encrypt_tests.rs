use laptop_backup::encrypt::{
    encrypt_file, encrypted_file_name, next_stage, plan_encryption, EncryptError, EncryptStage,
    Encryption,
};

const KEY: &str = "age1t7rxyev2z3rw82stdlrrepyc39nvn86l5078zqkf5uasdy86jp6svpy7pa";

fn begun(input: &str, key: &str) -> Encryption {
    match encrypt_file(input, key) {
        Ok(job) => job,
        Err(error) => panic!("the key was refused: {:?}", error),
    }
}

fn refused(input: &str, key: &str) -> EncryptError {
    match encrypt_file(input, key) {
        Ok(_) => panic!("the key was taken"),
        Err(error) => error,
    }
}

#[test]
fn encrypted_file_adds_an_extension() {
    assert_eq!(
        encrypted_file_name("laptop-backup-2024-01-02_03-04-05.tar"),
        "laptop-backup-2024-01-02_03-04-05.tar.age"
    );
    assert_eq!(encrypted_file_name("plain"), "plain.age");
}

#[test]
fn valid_key_begins_an_encryption() {
    let job = begun("backup.tar", KEY);
    assert_eq!(job.input, "backup.tar");
    assert_eq!(job.output, "backup.tar.age");
    assert_eq!(job.stage, EncryptStage::WriteOutput);
    assert_eq!(job.recipient.to_string(), KEY);
    assert_eq!(job.result(), None);
}

#[test]
fn invalid_key_is_invalid_input() {
    assert_eq!(refused("backup.tar", "not a key"), EncryptError::InvalidInput);
    assert_eq!(refused("backup.tar", ""), EncryptError::InvalidInput);
}

#[test]
fn key_with_a_wrong_checksum_is_invalid_input() {
    let mut key = KEY.to_string();
    key.pop();
    key.push('q');
    assert_eq!(refused("backup.tar", &key), EncryptError::InvalidInput);
}

#[test]
fn key_followed_by_a_line_break_is_invalid_input() {
    assert_eq!(refused("backup.tar", &format!("{}\n", KEY)), EncryptError::InvalidInput);
}

#[test]
fn secret_key_is_no_recipient() {
    assert_eq!(
        refused(
            "backup.tar",
            "AGE-SECRET-KEY-1GQ9778VQXMMJVE8SK7J6VT8UJ4HDQAJUVSFCWCM02D8GEWQ72PVQ2Y5J33"
        ),
        EncryptError::InvalidInput
    );
}

#[test]
fn planning_follows_the_parsed_key() {
    match plan_encryption("a.tar", Err("invalid Bech32 encoding")) {
        Ok(_) => panic!("planned without a recipient"),
        Err(error) => assert_eq!(error, EncryptError::InvalidInput),
    }
    let recipient = begun("other", KEY).recipient;
    match plan_encryption("a.tar", Ok(recipient.clone())) {
        Ok(job) => {
            assert_eq!(job.input, "a.tar");
            assert_eq!(job.output, "a.tar.age");
            assert!(job.recipient == recipient);
            assert_eq!(job.stage, EncryptStage::WriteOutput);
        }
        Err(error) => panic!("refused a recipient: {:?}", error),
    }
}

#[test]
fn plaintext_is_removed_after_the_output_is_written() {
    let mut job = begun("backup.tar", KEY);
    job.report(true);
    assert_eq!(job.stage, EncryptStage::RemovePlaintext);
    assert_eq!(job.result(), None);
    job.report(true);
    assert_eq!(job.stage, EncryptStage::Complete);
    assert_eq!(job.result(), Some(Ok(())));
    job.report(false);
    assert_eq!(job.stage, EncryptStage::Complete);
    assert_eq!(job.input, "backup.tar");
    assert_eq!(job.output, "backup.tar.age");
}

#[test]
fn failed_write_keeps_the_plaintext() {
    let mut job = begun("backup.tar", KEY);
    job.report(false);
    assert_eq!(job.stage, EncryptStage::Failed(EncryptError::WriteFailed));
    assert_eq!(job.result(), Some(Err(EncryptError::WriteFailed)));
    job.report(true);
    assert_eq!(job.stage, EncryptStage::Failed(EncryptError::WriteFailed));
}

#[test]
fn failed_removal_is_reported() {
    let mut job = begun("backup.tar", KEY);
    job.report(true);
    job.report(false);
    assert_eq!(job.result(), Some(Err(EncryptError::RemoveFailed)));
}

#[test]
fn encrypt_stages_follow_one_another() {
    assert_eq!(next_stage(EncryptStage::WriteOutput, true), EncryptStage::RemovePlaintext);
    assert_eq!(next_stage(EncryptStage::RemovePlaintext, true), EncryptStage::Complete);
    assert_eq!(next_stage(EncryptStage::Complete, false), EncryptStage::Complete);
    assert_eq!(
        next_stage(EncryptStage::Failed(EncryptError::InvalidInput), true),
        EncryptStage::Failed(EncryptError::InvalidInput)
    );
}
