use tpu_monitor::address::{addresses, host_label, normalize};

#[test]
fn addresses_get_a_scheme() {
    assert_eq!(normalize(" localhost:8431 "), "http://localhost:8431");
    assert_eq!(normalize("http://a:1"), "http://a:1");
    assert_eq!(normalize("\thttps://a:1\n"), "https://a:1");
    assert_eq!(normalize(""), "http://");
    assert_eq!(normalize("HTTP://a"), "http://HTTP://a");
}

#[test]
fn normalizing_twice_changes_nothing() {
    for addr in ["localhost:8431", " http://a ", "https://b:2", "", "  "] {
        let once = normalize(addr);
        assert_eq!(normalize(&once), once);
    }
}

#[test]
fn lists_of_addresses_are_cut_at_commas() {
    assert_eq!(addresses("a:1, b:2 ,https://c"), ["http://a:1", "http://b:2", "https://c"]);
    assert_eq!(addresses(""), ["http://"]);
}

#[test]
fn labels_leave_the_scheme_out() {
    assert_eq!(host_label("http://localhost:8431"), "localhost:8431");
    assert_eq!(host_label("https://a"), "a");
    assert_eq!(host_label("http://http://https://a"), "a");
    assert_eq!(host_label("https://http://a"), "http://a");
    for addr in ["worker-1:8431", " worker-2 ", ""] {
        assert_eq!(host_label(&normalize(addr)), addr.trim());
    }
}
