use urlbuilder::URLBuilder;

#[test]
fn test_set_host() {
    let mut ub = URLBuilder::new();
    ub.set_host("localhost");
    assert_eq!("localhost", ub.host());
}

#[test]
fn test_set_protocol() {
    let mut ub = URLBuilder::new();
    ub.set_protocol("https");
    assert_eq!("https", ub.protocol());
}

#[test]
fn test_set_port() {
    let mut ub = URLBuilder::new();
    ub.set_port(8000);
    assert_eq!(8000, ub.port());
}

#[test]
fn create_google_url() {
    let mut ub = URLBuilder::new();
    ub.set_protocol("http")
        .set_host("www.google.com")
        .set_port(80);
    let url = ub.build();
    assert_eq!("http://www.google.com:80", url);
}

#[test]
fn create_url_with_params() {
    let mut ub = URLBuilder::new();
    ub.set_protocol("http")
        .set_host("localhost")
        .set_port(8000)
        .add_param("first", "1")
        .add_param("second", "2")
        .add_param("third", "3");

    let url = ub.build();
    assert!(url.contains("first=1"));
    assert!(url.contains("second=2"));
    assert!(url.contains("third=3"));
}

#[test]
fn new_builder_has_empty_fields() {
    let ub = URLBuilder::new();
    assert_eq!("", ub.protocol());
    assert_eq!("", ub.host());
    assert_eq!(0, ub.port());
}

#[test]
fn new_builder_renders_bare_separators() {
    let ub = URLBuilder::new();
    assert_eq!("://:0", ub.build());
}

#[test]
fn host_round_trip_keeps_text_verbatim() {
    let mut ub = URLBuilder::new();
    for h in ["", "localhost", "a b?c&d=e", "[::1]", "h\u{f6}st.example"] {
        ub.set_host(h);
        assert_eq!(h, ub.host());
    }
    assert_eq!("", ub.protocol());
    assert_eq!(0, ub.port());
}

#[test]
fn protocol_round_trip_keeps_text_verbatim() {
    let mut ub = URLBuilder::new();
    for p in ["", "https", "not a protocol", "ftp://", "\u{3c0}"] {
        ub.set_protocol(p);
        assert_eq!(p, ub.protocol());
    }
    assert_eq!("", ub.host());
    assert_eq!(0, ub.port());
}

#[test]
fn port_round_trip_over_whole_range() {
    let mut ub = URLBuilder::new();
    for n in [i16::MIN, -1, 0, 1, 80, 443, 8000, i16::MAX] {
        ub.set_port(n);
        assert_eq!(n, ub.port());
    }
    let mut n: i16 = i16::MIN;
    loop {
        assert_eq!(n, ub.set_port(n).port());
        if n == i16::MAX {
            break;
        }
        n += 1;
    }
}

#[test]
fn url_without_params_has_no_question_mark() {
    let mut ub = URLBuilder::new();
    ub.set_protocol("http").set_host("www.example.com").set_port(80);
    let url = ub.build();
    assert_eq!("http://www.example.com:80", url);
    assert!(!url.contains('?'));
}

#[test]
fn url_with_two_params_has_the_expected_shape() {
    let mut ub = URLBuilder::new();
    ub.set_protocol("http").set_host("www.example.com").set_port(80);
    let base = ub.build();
    ub.add_param("a", "1").add_param("b", "2");
    let url = ub.build();
    assert!(url.starts_with("http://www.example.com:80?"));
    assert!(url.contains("a=1"));
    assert!(url.contains("b=2"));
    assert!(url.ends_with("&"));
    assert_eq!(url.len(), base.len() + 1 + "a=1&".len() + "b=2&".len());
    assert_eq!("http://www.example.com:80?a=1&b=2&", url);
}

#[test]
fn params_render_in_insertion_order_with_trailing_separator() {
    let mut ub = URLBuilder::new();
    ub.set_protocol("http")
        .set_host("localhost")
        .set_port(8000)
        .add_param("first", "1")
        .add_param("second", "2")
        .add_param("third", "3");
    assert_eq!("http://localhost:8000?first=1&second=2&third=3&", ub.build());
}

#[test]
fn single_param_still_ends_with_separator() {
    let mut ub = URLBuilder::new();
    ub.add_param("k", "v");
    assert_eq!("://:0?k=v&", ub.build());
}

#[test]
fn adding_a_key_again_replaces_its_value() {
    let mut ub = URLBuilder::new();
    ub.add_param("x", "1").add_param("x", "2");
    let url = ub.build();
    assert!(url.contains("x=2"));
    assert!(!url.contains("x=1"));
    assert_eq!(1, url.matches("x=").count());
    assert_eq!("://:0?x=2&", url);
}

#[test]
fn replaced_key_keeps_its_place() {
    let mut ub = URLBuilder::new();
    ub.add_param("a", "1").add_param("b", "2").add_param("c", "3").add_param("b", "9");
    assert_eq!("://:0?a=1&b=9&c=3&", ub.build());
    ub.add_param("a", "").add_param("c", "z");
    assert_eq!("://:0?a=&b=9&c=z&", ub.build());
}

#[test]
fn keys_differ_by_case_and_by_length() {
    let mut ub = URLBuilder::new();
    ub.add_param("k", "1").add_param("K", "2").add_param("kk", "3").add_param("", "4");
    assert_eq!("://:0?k=1&K=2&kk=3&=4&", ub.build());
}

#[test]
fn build_twice_gives_the_same_text() {
    let mut ub = URLBuilder::new();
    ub.set_protocol("https")
        .set_host("example.org")
        .set_port(443)
        .add_param("q", "rust")
        .add_param("page", "2");
    let first = ub.build();
    let second = ub.build();
    assert_eq!(first, second);
    assert_eq!("https://example.org:443?q=rust&page=2&", first);
    assert_eq!("https", ub.protocol());
    assert_eq!("example.org", ub.host());
    assert_eq!(443, ub.port());
}

#[test]
fn chained_calls_equal_separate_calls() {
    let mut chained = URLBuilder::new();
    chained
        .set_protocol("http")
        .set_host("localhost")
        .set_port(8000)
        .add_param("first", "1")
        .add_param("second", "2");

    let mut separate = URLBuilder::new();
    separate.set_protocol("http");
    separate.set_host("localhost");
    separate.set_port(8000);
    separate.add_param("first", "1");
    separate.add_param("second", "2");

    assert_eq!(separate.protocol(), chained.protocol());
    assert_eq!(separate.host(), chained.host());
    assert_eq!(separate.port(), chained.port());
    assert_eq!(separate.build(), chained.build());
    assert_eq!("http://localhost:8000?first=1&second=2&", chained.build());
}

#[test]
fn chain_can_end_in_an_accessor_or_in_build() {
    let mut ub = URLBuilder::new();
    assert_eq!("h", ub.set_host("h").host());
    assert_eq!("p", ub.set_protocol("p").protocol());
    assert_eq!(7, ub.set_port(7).port());
    assert_eq!("p://h:7?a=b&", ub.add_param("a", "b").build());
}

#[test]
fn later_setter_call_overrides_earlier_one() {
    let mut ub = URLBuilder::new();
    ub.set_host("one").set_host("two").set_port(1).set_port(2).set_protocol("a").set_protocol("b");
    assert_eq!("b://two:2", ub.build());
}

#[test]
fn negative_and_extreme_ports_render_in_decimal() {
    let mut ub = URLBuilder::new();
    ub.set_protocol("http").set_host("h");
    assert_eq!("http://h:-1", ub.set_port(-1).build());
    assert_eq!("http://h:-32768", ub.set_port(i16::MIN).build());
    assert_eq!("http://h:32767", ub.set_port(i16::MAX).build());
    assert_eq!("http://h:0", ub.set_port(0).build());
    assert_eq!("http://h:10", ub.set_port(10).build());
    assert_eq!("http://h:-100", ub.set_port(-100).build());
}

#[test]
fn reserved_characters_pass_through_unescaped() {
    let mut ub = URLBuilder::new();
    ub.set_protocol("http")
        .set_host("my host")
        .set_port(80)
        .add_param("a&b", "c=d")
        .add_param("q?", "x y")
        .add_param("e", "");
    assert_eq!("http://my host:80?a&b=c=d&q?=x y&e=&", ub.build());
}

#[test]
fn non_ascii_text_passes_through() {
    let mut ub = URLBuilder::new();
    ub.set_protocol("http")
        .set_host("b\u{fc}cher.example")
        .set_port(80)
        .add_param("gr\u{f6}\u{df}e", "\u{1f600}");
    assert_eq!(
        "http://b\u{fc}cher.example:80?gr\u{f6}\u{df}e=\u{1f600}&",
        ub.build()
    );
}

#[test]
fn setters_leave_params_alone() {
    let mut ub = URLBuilder::new();
    ub.add_param("a", "1");
    ub.set_protocol("x").set_host("y").set_port(3);
    assert_eq!("x://y:3?a=1&", ub.build());
}
