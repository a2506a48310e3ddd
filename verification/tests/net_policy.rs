//! What of a URL is kept out of messages.

use deps_core::net_policy::url_for_tracing;

#[test]
fn query_and_fragment_are_dropped() {
    assert_eq!(url_for_tracing("https://h/p?token=s"), "https://h/p");
    assert_eq!(url_for_tracing("https://h/p#frag?x"), "https://h/p");
    assert_eq!(url_for_tracing("?a=b"), "");
}

#[test]
fn userinfo_is_masked() {
    assert_eq!(url_for_tracing("https://user:pass@h/p@q?x"), "https://***@h/p@q");
    assert_eq!(url_for_tracing("https://a@b@h"), "https://***@h");
}

#[test]
fn plain_texts_are_kept() {
    assert_eq!(url_for_tracing("@types/node"), "@types/node");
    assert_eq!(url_for_tracing("https://h/a@b"), "https://h/a@b");
    assert_eq!(url_for_tracing(""), "");
}
