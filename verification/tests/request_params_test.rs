use http_server::request_params::RequestParams;

#[test]
fn test_param_parsing_full_url() {
    let url = "/foo/bar?p1=f&p2=bär&p3=&p4";
    let rp = RequestParams::from_request_url(url);
    assert_eq!(rp.get("p1", ""), "f");
    assert_eq!(rp.get("p2", ""), "bär");
    assert_eq!(rp.get("p3", "foo"), "");
    assert_eq!(rp.get("p4", "foo"), "");
    assert_eq!(rp.get("p5", "foo"), "foo");
}

#[test]
fn test_param_parsing_params_2() {
    let url = "?p1=f&p2=bär&p3=&p4";
    let rp = RequestParams::from_request_url(url);
    assert_eq!(rp.get("p1", ""), "f");
    assert_eq!(rp.get("p2", ""), "bär");
    assert_eq!(rp.get("p3", "foo"), "");
    assert_eq!(rp.get("p4", "foo"), "");
    assert_eq!(rp.get("p5", "foo"), "foo");
}

#[test]
fn test_param_parsing_params_only() {
    let url = "p1=f&p2=bär&p3=&p4";
    let rp = RequestParams::from_request_url(url);
    assert_eq!(rp.get("p1", ""), "f");
    assert_eq!(rp.get("p2", ""), "bär");
    assert_eq!(rp.get("p3", "foo"), "");
    assert_eq!(rp.get("p4", "foo"), "");
    assert_eq!(rp.get("p5", "foo"), "foo");
}

#[test]
fn test_param_parsing_wrong() {
    let url = "?&&&";
    let rp = RequestParams::from_request_url(url);
    assert_eq!(rp.get("p1", "foo"), "foo");
}

#[test]
fn test_get_i64() {
    let url = "/foo/bar?p1=42&p2=-3&p3=33.5&p4=0&p5=null";
    let rp = RequestParams::from_request_url(url);
    assert_eq!(rp.get_i64("p1"), Some(42));
    assert_eq!(rp.get_i64("p2"), Some(-3));
    assert_eq!(rp.get_i64("p3"), None, "Value is not an integer",);
    assert_eq!(rp.get_i64("p4"), Some(0));
    assert_eq!(rp.get_i64("p5"), None);
    assert_eq!(rp.get_i64("p6"), None);
}

#[test]
fn separators_alone_give_no_parameter() {
    let rp = RequestParams::from_request_url("?&&&");
    assert_eq!(rp.len(), 0);
    assert!(rp.pairs().is_empty());
    assert_eq!(rp.get("", "absent"), "absent");
}

#[test]
fn empty_query_gives_no_parameter() {
    assert_eq!(RequestParams::from_query("").len(), 0);
    assert_eq!(RequestParams::from_request_url("/only/a/path?").len(), 0);
}

#[test]
fn url_without_question_mark_is_all_query() {
    let rp = RequestParams::from_request_url("/a/b");
    assert_eq!(rp.len(), 1);
    assert_eq!(rp.get("/a/b", "absent"), "");
}

#[test]
fn last_of_two_equal_keys_stays() {
    let rp = RequestParams::from_query("k=1&other=x&k=2&k=3");
    assert_eq!(rp.get("k", ""), "3");
    assert_eq!(rp.get("other", ""), "x");
    assert_eq!(rp.len(), 2);
}

#[test]
fn item_is_cut_at_its_first_equals_sign() {
    let rp = RequestParams::from_query("a=b=c&=v&k=");
    assert_eq!(rp.get("a", ""), "b=c");
    assert_eq!(rp.get("", "absent"), "v");
    assert_eq!(rp.get("k", "absent"), "");
    assert_eq!(rp.len(), 3);
}

#[test]
fn only_the_first_question_mark_starts_the_query() {
    let rp = RequestParams::from_request_url("/p?a=1?2&b=?");
    assert_eq!(rp.get("a", ""), "1?2");
    assert_eq!(rp.get("b", ""), "?");
}

#[test]
fn pairs_come_in_order_of_first_appearance() {
    let rp = RequestParams::from_query("b=1&a=2&&b=3&c");
    let pairs = rp.pairs();
    let expected = vec![
        (String::from("b"), String::from("3")),
        (String::from("a"), String::from("2")),
        (String::from("c"), String::from("")),
    ];
    assert_eq!(pairs, expected);
}

#[test]
fn values_are_kept_verbatim() {
    let rp = RequestParams::from_query("k= v %20+&Ключ=значение");
    assert_eq!(rp.get("k", ""), " v %20+");
    assert_eq!(rp.get("Ключ", ""), "значение");
    assert_eq!(rp.get("ключ", "absent"), "absent");
}

#[test]
fn get_i64_reads_signs_and_limits() {
    let rp = RequestParams::from_query(
        "plus=+7&min=-9223372036854775808&max=9223372036854775807&over=9223372036854775808\
         &under=-9223372036854775809&zeros=-000&blank=&sign=-&space= 1&hex=0x10",
    );
    assert_eq!(rp.get_i64("plus"), Some(7));
    assert_eq!(rp.get_i64("min"), Some(i64::MIN));
    assert_eq!(rp.get_i64("max"), Some(i64::MAX));
    assert_eq!(rp.get_i64("over"), None);
    assert_eq!(rp.get_i64("under"), None);
    assert_eq!(rp.get_i64("zeros"), Some(0));
    assert_eq!(rp.get_i64("blank"), None);
    assert_eq!(rp.get_i64("sign"), None);
    assert_eq!(rp.get_i64("space"), None);
    assert_eq!(rp.get_i64("hex"), None);
}
