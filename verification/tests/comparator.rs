use fstesting::commands::Command;
use fstesting::outcome::{Divergence, ErrKind};

#[test]
fn mixed_outcome_is_divergence() {
    let c = Command::Size;
    let r = c.check_res::<usize>(Ok(3), Err(ErrKind::NotFound));
    assert_eq!(r, Err(Divergence::OkVsErr(ErrKind::NotFound)));
    let r = c.check_res::<usize>(Err(ErrKind::NotFound), Ok(3));
    assert_eq!(r, Err(Divergence::ErrVsOk(ErrKind::NotFound)));
}

#[test]
fn equal_values_agree() {
    let c = Command::Size;
    assert_eq!(c.check_res::<usize>(Ok(42), Ok(42)), Ok(()));
    assert_eq!(c.check_res::<usize>(Ok(0), Ok(0)), Ok(()));
}

#[test]
fn unequal_values_diverge() {
    let c = Command::Size;
    assert_eq!(
        c.check_res::<usize>(Ok(3), Ok(4)),
        Err(Divergence::ValueMismatch)
    );
}

#[test]
fn equal_error_kinds_agree() {
    let c = Command::Reopen;
    assert_eq!(
        c.check_res::<usize>(Err(ErrKind::NotFound), Err(ErrKind::NotFound)),
        Ok(())
    );
}

#[test]
fn unequal_error_kinds_diverge() {
    let c = Command::Reopen;
    assert_eq!(
        c.check_res::<usize>(
            Err(ErrKind::NotFound),
            Err(ErrKind::PermissionDenied)
        ),
        Err(Divergence::KindMismatch(
            ErrKind::NotFound,
            ErrKind::PermissionDenied
        ))
    );
}

#[test]
fn byte_difference_reports_exact_index() {
    let c = Command::Read(fstesting::bounded::BoundedUsize::new(4));
    let b1 = vec![10u8, 20u8, 30u8, 40u8];
    let b2 = vec![10u8, 20u8, 31u8, 41u8];
    assert_eq!(
        c.check_bytes(b1, b2),
        Err(Divergence::ByteMismatch(2, 30, 31))
    );
}

#[test]
fn single_index_difference_pinpointed() {
    let mut b1 = vec![0u8; 100];
    let b2 = vec![0u8; 100];
    b1[57] = 9;
    let c = Command::Size;
    assert_eq!(
        c.check_bytes(b1, b2),
        Err(Divergence::ByteMismatch(57, 9, 0))
    );
}

#[test]
fn equal_buffers_agree() {
    let c = Command::Size;
    assert_eq!(c.check_bytes(vec![1u8, 2u8], vec![1u8, 2u8]), Ok(()));
    assert_eq!(c.check_bytes(Vec::new(), Vec::new()), Ok(()));
}
