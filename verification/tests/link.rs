use rmap::link::{find_link, get_link};

const GITHUB: &str = "<https://api.github.com/search/repositories?q=x&page=2>; rel=\"next\", <https://api.github.com/search/repositories?q=x&page=34>; rel=\"last\"";
const MIDDLE: &str = "<https://api.github.com/search/repositories?q=x&page=1>; rel=\"prev\", <https://api.github.com/search/repositories?q=x&page=3>; rel=\"next\", <https://api.github.com/search/repositories?q=x&page=34>; rel=\"last\", <https://api.github.com/search/repositories?q=x&page=1>; rel=\"first\"";

#[test]
fn next_link_is_read_from_the_header() {
    assert_eq!(
        get_link(GITHUB, "next"),
        "https://api.github.com/search/repositories?q=x&page=2"
    );
}

#[test]
fn absent_relation_gives_empty_link() {
    assert_eq!(get_link(GITHUB, "prev"), "");
    assert_eq!(get_link("", "next"), "");
}

#[test]
fn prev_lookup_follows_the_next_entry() {
    assert_eq!(
        get_link(MIDDLE, "prev"),
        "https://api.github.com/search/repositories?q=x&page=3"
    );
}

#[test]
fn prev_without_next_has_no_link() {
    let header = "<https://a/?page=1>; rel=\"prev\"";
    assert_eq!(find_link(header, "prev"), None);
}

#[test]
fn next_without_address_has_no_link() {
    assert_eq!(find_link(" rel=\"next\"", "next"), None);
}

#[test]
fn link_trims_brackets_and_spaces() {
    assert_eq!(get_link(" < x y >; rel=\"next\"", "next"), "x y");
}
