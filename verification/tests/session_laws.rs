use fstesting::bounded::BoundedUsize;
use fstesting::commands::Command;
use fstesting::model::ModelFile;
use fstesting::session::{replay, ModelSession, RegressionCase};

fn b(v: usize) -> BoundedUsize {
    BoundedUsize::new(v)
}

fn captured_cases() -> Vec<RegressionCase> {
    vec![
        RegressionCase {
            name: String::from("pwrite_then_pread"),
            commands: vec![
                Command::PWrite(b(2011037), b(2539667)),
                Command::PRead(b(1), b(5)),
            ],
        },
        RegressionCase {
            name: String::from("lone_truncate"),
            commands: vec![Command::Truncate(b(1))],
        },
        RegressionCase {
            name: String::from("truncate_then_pread"),
            commands: vec![
                Command::Truncate(b(2)),
                Command::PRead(b(1), b(1)),
            ],
        },
        RegressionCase {
            name: String::from("truncate_write_truncate_reopen_pread"),
            commands: vec![
                Command::Truncate(b(2532034)),
                Command::Write(b(2419266)),
                Command::Truncate(b(662889)),
                Command::Reopen,
                Command::PRead(b(796278), b(1411041)),
            ],
        },
        RegressionCase {
            name: String::from("seek_write_fsync_pwrite_size"),
            commands: vec![
                Command::Seek(b(1)),
                Command::Write(b(1)),
                Command::Fsync,
                Command::PWrite(b(67813), b(236421)),
                Command::Size,
            ],
        },
    ]
}

#[test]
fn replay_twice_gives_same_verdict() {
    let cases = captured_cases();
    let first = replay(&cases);
    let second = replay(&cases);
    assert_eq!(first, second);
    assert_eq!(first, Ok(()));
}

#[test]
fn writes_then_size_agree_on_both_sides() {
    let mut session = ModelSession::new();
    let cmds = vec![
        Command::Write(b(100)),
        Command::PWrite(b(250), b(40)),
        Command::Truncate(b(180)),
        Command::Size,
    ];
    assert_eq!(session.run(&cmds), Ok(()));
    assert_eq!(session.fd1.size(), session.fd2.size());
    assert_eq!(session.fd1.size(), Ok(180));
}

#[test]
fn positioned_write_then_size_reports_eleven() {
    let mut session = ModelSession::new();
    let cmds = vec![Command::PWrite(b(10), b(1)), Command::Size];
    assert_eq!(session.run(&cmds), Ok(()));
    assert_eq!(session.fd1.size(), Ok(11));
    assert_eq!(session.fd2.size(), Ok(11));
}

#[test]
fn truncate_then_positioned_read_yields_one_zero_byte() {
    let mut fd1 = ModelFile::new();
    let mut fd2 = ModelFile::new();
    assert_eq!(Command::Truncate(b(2)).apply(&mut fd1, &mut fd2), Ok(()));
    assert_eq!(
        Command::PRead(b(1), b(1)).apply(&mut fd1, &mut fd2),
        Ok(())
    );
    let mut buf1 = vec![9u8; 1];
    let mut buf2 = vec![9u8; 1];
    assert_eq!(fd1.read_at(&mut buf1, 1), Ok(1));
    assert_eq!(fd2.read_at(&mut buf2, 1), Ok(1));
    assert_eq!(buf1, vec![0u8]);
    assert_eq!(buf2, vec![0u8]);
}

#[test]
fn truncate_write_truncate_reopen_pread_matches() {
    let mut fd1 = ModelFile::new();
    let mut fd2 = ModelFile::new();
    let cmds = vec![
        Command::Truncate(b(2532034)),
        Command::Write(b(2419266)),
        Command::Truncate(b(662889)),
        Command::Reopen,
        Command::PRead(b(796278), b(1411041)),
    ];
    for cmd in &cmds {
        assert_eq!(cmd.apply(&mut fd1, &mut fd2), Ok(()));
    }
    let mut buf1 = vec![0u8; 1411041];
    let mut buf2 = vec![0u8; 1411041];
    let n1 = fd1.read_at(&mut buf1, 796278);
    let n2 = fd2.read_at(&mut buf2, 796278);
    assert_eq!(n1, n2);
    assert_eq!(buf1, buf2);
}

#[test]
fn shared_payload_reaches_both_sides() {
    let mut fd1 = ModelFile::new();
    let mut fd2 = ModelFile::new();
    assert_eq!(Command::Write(b(5)).apply(&mut fd1, &mut fd2), Ok(()));
    assert_eq!(fd1.size(), Ok(5));
    assert_eq!(fd2.size(), Ok(5));
    let mut buf1 = vec![0u8; 5];
    let mut buf2 = vec![0u8; 5];
    assert_eq!(fd1.read_at(&mut buf1, 0), Ok(5));
    assert_eq!(fd2.read_at(&mut buf2, 0), Ok(5));
    assert_eq!(buf1, buf2);
}

#[test]
fn unrepresentable_twin_writes_fail_alike() {
    let mut fd1 = ModelFile::new();
    let mut fd2 = ModelFile::new();
    let cmd = Command::PWrite(b(usize::MAX), b(1));
    assert_eq!(cmd.apply(&mut fd1, &mut fd2), Ok(()));
    assert_eq!(fd1.size(), Ok(0));
    assert_eq!(fd2.size(), Ok(0));
}

#[test]
fn run_reports_no_step_for_agreeing_twins() {
    let mut session = ModelSession::new();
    let cmds = vec![
        Command::Reopen,
        Command::Read(b(64)),
        Command::Seek(b(1000)),
        Command::Write(b(64)),
        Command::Fsync,
        Command::Size,
    ];
    assert_eq!(session.run(&cmds), Ok(()));
}

#[test]
fn replay_of_empty_case_list_succeeds() {
    assert_eq!(replay(&Vec::new()), Ok(()));
}
