use rust_gallery::is_localhost;
use rust_gallery::localhost::LOCALHOST;

#[test]
fn only_the_loopback_address_is_trusted() {
    assert!(is_localhost("127.0.0.1"));
    assert!(is_localhost(LOCALHOST));
    assert!(!is_localhost("127.0.0.2"));
    assert!(!is_localhost("10.0.0.1"));
    assert!(!is_localhost("::1"));
    assert!(!is_localhost("127.0.0.1 "));
    assert!(!is_localhost(""));
}
