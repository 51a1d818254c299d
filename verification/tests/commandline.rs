use pqfs::cli::mount_action;
use pqfs::cli::mount_options;
use pqfs::cli::prompt_password;
use pqfs::cli::CliError;
use pqfs::cli::Credential;
use pqfs::cli::MountAction;
use pqfs::cli::MountArgs;
use pqfs::cli::MountFlag;
use pqfs::crypto::identity::Identity;
use pqfs::crypto::slots::Unlock;
use pqfs::rekey::commit_steps;
use pqfs::rekey::recovery_steps;
use pqfs::rekey::RekeyStep;
use pqfs::text::join;
use pqfs::text::same_bytes;
use pqfs::text::same_text;
use pqfs::text::to_decimal;

fn credential(password: Option<&str>, identity: Option<&[u8]>) -> Credential {
    Credential {
        password: password.map(|p| p.to_string()),
        identity: identity.map(|i| i.to_vec()),
    }
}

fn mount(password: Option<&str>) -> MountArgs {
    MountArgs {
        backend: b"/b".to_vec(),
        mountpoint: b"/m".to_vec(),
        credential: credential(password, None),
        init: false,
        options: Vec::new(),
    }
}

#[test]
fn a_given_password_is_kept() {
    let mut args = mount(Some("given"));
    args.resolve_password(Err(CliError::PasswordRequired)).unwrap();
    assert_eq!(args.credential.password.as_deref(), Some("given"));
}

#[test]
fn a_missing_or_empty_password_is_asked_for() {
    for given in [None, Some("")] {
        let mut args = mount(given);
        args.resolve_password(Ok("typed".to_string())).unwrap();
        assert_eq!(args.credential.password.as_deref(), Some("typed"));

        let mut args = mount(given);
        assert_eq!(
            args.resolve_password(Err(CliError::PasswordRead)),
            Err(CliError::PasswordRead)
        );
        assert_eq!(args.credential.password.as_deref(), given);
    }
}

#[test]
fn prompting_needs_a_terminal() {
    assert_eq!(prompt_password(true, Some("x".to_string())), Ok("x".to_string()));
    assert_eq!(prompt_password(true, None), Err(CliError::PasswordRead));
    assert_eq!(
        prompt_password(false, Some("x".to_string())),
        Err(CliError::PasswordRequired)
    );
}

#[test]
fn an_identity_needs_no_password() {
    assert!(!credential(None, Some(b"/k")).needs_prompt());
    assert!(!credential(Some(""), Some(b"/k")).needs_prompt());
    assert!(!credential(Some("p"), None).needs_prompt());
    assert!(credential(None, None).needs_prompt());
    assert!(credential(Some(""), None).needs_prompt());

    let mut with_key = credential(None, Some(b"/k"));
    with_key.resolve(Err(CliError::PasswordRequired)).unwrap();
    assert_eq!(with_key.password, None);
    assert_eq!(with_key.require_password(), Err(CliError::PasswordRequired));

    let mut neither = credential(None, None);
    assert_eq!(neither.resolve(Err(CliError::PasswordRead)), Err(CliError::PasswordRead));
    neither.resolve(Ok("typed".to_string())).unwrap();
    assert_eq!(neither.require_password(), Ok("typed"));
}

#[test]
fn credentials_name_what_opens_the_volume() {
    let key = Identity::generate().unwrap();
    let both = credential(Some("p"), Some(b"/k"));
    assert!(matches!(both.unlock(Some(&key)), Ok(Unlock::Identity(_))));
    assert!(matches!(both.unlock(None), Ok(Unlock::Password("p"))));
    assert!(matches!(
        credential(None, None).unlock(None),
        Err(CliError::PasswordRequired)
    ));
}

#[test]
fn a_volume_is_created_only_on_request() {
    assert_eq!(mount_action(true, false), MountAction::Unlock);
    assert_eq!(mount_action(true, true), MountAction::Unlock);
    assert_eq!(mount_action(false, true), MountAction::Create);
    assert_eq!(mount_action(false, false), MountAction::NoVolume);
}

#[test]
fn mount_options_are_passed_on() {
    let flags = mount_options(&Vec::new());
    assert_eq!(flags.len(), 4);
    assert!(matches!(flags[0], MountFlag::FsName));
    assert!(matches!(flags[1], MountFlag::Subtype));
    assert!(matches!(flags[2], MountFlag::NoAtime));
    assert!(matches!(flags[3], MountFlag::ReadWrite));

    let given: Vec<String> = ["allow_other", "rw", "ro", "max_read=4096"]
        .iter()
        .map(|o| o.to_string())
        .collect();
    let flags = mount_options(&given);
    assert_eq!(flags.len(), 6);
    assert!(matches!(flags[3], MountFlag::ReadOnly));
    match (&flags[4], &flags[5]) {
        (MountFlag::Custom(a), MountFlag::Custom(b)) => {
            assert_eq!((a.as_str(), b.as_str()), ("allow_other", "max_read=4096"));
        }
        _ => panic!("options were not passed on"),
    }
}

fn run(steps: &[RekeyStep], disk: &mut (bool, bool, bool, bool, bool)) {
    for step in steps {
        match step {
            RekeyStep::WriteHeader => disk.1 = true,
            RekeyStep::WriteIndex => disk.2 = true,
            RekeyStep::WriteMarker => disk.0 = true,
            RekeyStep::MoveHeader => {
                assert!(disk.1);
                disk.1 = false;
                disk.3 = true;
            }
            RekeyStep::MoveIndex => {
                assert!(disk.2);
                disk.2 = false;
                disk.4 = true;
            }
            RekeyStep::RemoveMarker => disk.0 = false,
            RekeyStep::DropHeader => disk.1 = false,
            RekeyStep::DropIndex => disk.2 = false,
        }
    }
}

#[test]
fn an_interrupted_rekey_is_completed_or_undone() {
    let steps = commit_steps();
    assert_eq!(steps.len(), 6);
    for stop in 0..=steps.len() {
        let mut disk = (false, false, false, false, false);
        run(&steps[..stop], &mut disk);
        let recovery = recovery_steps(disk.0, disk.1, disk.2);
        for second in 0..=recovery.len() {
            let mut disk = disk;
            run(&recovery[..second], &mut disk);
            run(&recovery_steps(disk.0, disk.1, disk.2), &mut disk);
            let new = stop >= 3;
            assert_eq!(disk, (false, false, false, new, new));
        }
    }
}

#[test]
fn recovery_of_a_settled_directory_does_nothing() {
    assert!(recovery_steps(false, false, false).is_empty());
    assert_eq!(
        recovery_steps(false, true, true),
        vec![RekeyStep::DropHeader, RekeyStep::DropIndex]
    );
    assert_eq!(
        recovery_steps(true, false, true),
        vec![RekeyStep::MoveIndex, RekeyStep::RemoveMarker]
    );
}

#[test]
fn numbers_are_written_in_decimal() {
    assert_eq!(to_decimal(0), b"0".to_vec());
    assert_eq!(to_decimal(10), b"10".to_vec());
    assert_eq!(to_decimal(u64::MAX), b"18446744073709551615".to_vec());
}

#[test]
fn paths_are_joined_with_one_slash() {
    assert_eq!(join(b"/a", b"b"), b"/a/b".to_vec());
    assert_eq!(join(b"/a/", b"b"), b"/a/b".to_vec());
    assert_eq!(join(b"", b"b"), b"b".to_vec());
}

#[test]
fn texts_are_compared_whole() {
    assert!(same_bytes(b"", b""));
    assert!(!same_bytes(b"a", b"ab"));
    assert!(!same_bytes(b"ab", b"aa"));
    assert!(same_text("ro", "ro"));
    assert!(!same_text("ro", "rw"));
}
