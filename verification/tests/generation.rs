use fstesting::bounded::BoundedUsize;
use fstesting::commands::Command;
use fstesting::driver::{generate_sequence, shrink_candidates};

fn field_values(c: &Command) -> Vec<usize> {
    match c {
        Command::Reopen | Command::Fsync | Command::Size => Vec::new(),
        Command::Read(n)
        | Command::Write(n)
        | Command::Seek(n)
        | Command::Truncate(n) => vec![n.value()],
        Command::PRead(a, b) | Command::PWrite(a, b) => {
            vec![a.value(), b.value()]
        }
    }
}

#[test]
fn generated_magnitudes_stay_below_ceiling() {
    for _ in 0..200 {
        assert!(BoundedUsize::generate(7).value() < 7);
        assert!(BoundedUsize::generate(1000).value() < 1000);
    }
}

#[test]
fn ceiling_of_one_gives_zero() {
    for _ in 0..50 {
        assert_eq!(BoundedUsize::generate(1).value(), 0);
    }
}

#[test]
fn generated_commands_stay_bounded() {
    for _ in 0..200 {
        let c = Command::generate(16);
        for v in field_values(&c) {
            assert!(v < 16);
        }
    }
}

#[test]
fn generated_sequences_have_requested_length() {
    let seq = generate_sequence(50, 10);
    assert_eq!(seq.len(), 50);
    for c in &seq {
        for v in field_values(c) {
            assert!(v < 10);
        }
    }
}

#[test]
fn value_shrink_moves_toward_zero() {
    let cands = BoundedUsize::new(5).shrink();
    let values: Vec<usize> = cands.iter().map(|b| b.value()).collect();
    assert_eq!(values, vec![0, 3, 4]);
}

#[test]
fn zero_has_no_shrink_candidates() {
    assert!(BoundedUsize::new(0).shrink().is_empty());
}

#[test]
fn shrink_candidates_respect_original_bound() {
    let v = BoundedUsize::new(999);
    for cand in v.shrink() {
        assert!(cand.value() < 999);
    }
}

#[test]
fn zero_arity_commands_do_not_shrink() {
    assert!(Command::Reopen.shrink().is_empty());
    assert!(Command::Fsync.shrink().is_empty());
    assert!(Command::Size.shrink().is_empty());
}

#[test]
fn commands_with_zero_fields_do_not_shrink() {
    assert!(Command::Read(BoundedUsize::new(0)).shrink().is_empty());
    assert!(Command::PWrite(BoundedUsize::new(0), BoundedUsize::new(0))
        .shrink()
        .is_empty());
    assert!(!Command::PWrite(BoundedUsize::new(0), BoundedUsize::new(1))
        .shrink()
        .is_empty());
}

#[test]
fn read_shrinks_within_its_variant() {
    let cands = Command::Read(BoundedUsize::new(4)).shrink();
    let expected = vec![
        Command::Read(BoundedUsize::new(0)),
        Command::Read(BoundedUsize::new(2)),
        Command::Read(BoundedUsize::new(3)),
    ];
    assert_eq!(cands, expected);
}

#[test]
fn pwrite_shrinks_to_pwrite_only() {
    let cands = Command::PWrite(BoundedUsize::new(3), BoundedUsize::new(2)).shrink();
    assert!(!cands.is_empty());
    for cand in &cands {
        assert!(matches!(cand, Command::PWrite(_, _)));
    }
    let expected = vec![
        Command::PWrite(BoundedUsize::new(0), BoundedUsize::new(2)),
        Command::PWrite(BoundedUsize::new(2), BoundedUsize::new(2)),
        Command::PWrite(BoundedUsize::new(3), BoundedUsize::new(0)),
        Command::PWrite(BoundedUsize::new(3), BoundedUsize::new(1)),
    ];
    assert_eq!(cands, expected);
}

#[test]
fn pread_shrinks_each_field_independently() {
    let cands = Command::PRead(BoundedUsize::new(2), BoundedUsize::new(1)).shrink();
    let expected = vec![
        Command::PRead(BoundedUsize::new(0), BoundedUsize::new(1)),
        Command::PRead(BoundedUsize::new(1), BoundedUsize::new(1)),
        Command::PRead(BoundedUsize::new(2), BoundedUsize::new(0)),
    ];
    assert_eq!(cands, expected);
}

#[test]
fn sequence_candidates_eliminate_or_shrink_one_element() {
    let seq = vec![Command::Read(BoundedUsize::new(2)), Command::Fsync];
    let cands = shrink_candidates(&seq);
    let expected: Vec<Vec<Command>> = vec![
        vec![Command::Fsync],
        vec![Command::Read(BoundedUsize::new(2))],
        vec![Command::Read(BoundedUsize::new(0)), Command::Fsync],
        vec![Command::Read(BoundedUsize::new(1)), Command::Fsync],
    ];
    assert_eq!(cands, expected);
}
