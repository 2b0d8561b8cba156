use guestlist::error::{DecodeError, GuestlistError, GuestlistPoisonError, IoOperation};

#[test]
fn poison_error_describes_itself() {
    let e = GuestlistPoisonError;
    assert_eq!(e.describe(), "one of the threads accessing the list of nodes panicked");
}

#[test]
fn guestlist_error_describes_each_kind() {
    assert_eq!(
        GuestlistError::Io(IoOperation::Bind).describe(),
        "i/o error while talking to the cluster"
    );
    assert_eq!(
        GuestlistError::Poison(GuestlistPoisonError).describe(),
        "one of the threads accessing the list of nodes panicked"
    );
    assert_eq!(
        GuestlistError::Decode(DecodeError::Truncated).describe(),
        "malformed wire payload"
    );
}

#[test]
fn error_variants_are_distinguishable() {
    let io = GuestlistError::Io(IoOperation::Send);
    let poison = GuestlistError::Poison(GuestlistPoisonError);
    let decode = GuestlistError::Decode(DecodeError::BadMessageTag);
    assert!(matches!(io, GuestlistError::Io(IoOperation::Send)));
    assert!(matches!(poison, GuestlistError::Poison(_)));
    assert!(matches!(decode, GuestlistError::Decode(DecodeError::BadMessageTag)));
    assert_ne!(io, poison);
    assert_ne!(poison, decode);
}
