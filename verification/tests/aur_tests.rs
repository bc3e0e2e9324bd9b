use cower_rs::aur::{AurT, AurTErrors, RpcBy};
use std::borrow::Cow;

#[test]
fn test_new_aur_t() {
    let aur = AurT::new("https", "aur.archlinux.com");
    assert_eq!(aur.rpc_version, 5);
    assert_eq!(aur.url_prefix, "https://aur.archlinux.com");
}

#[test]
fn test_rpc_info_url_with_single_arg() {
    let url = AurT::new("https", "aur.archlinux.com").aur_build_rpc_info_url(&vec!["cower"]);
    assert!(url.is_ok());

    let url = url.unwrap();
    assert_eq!(url.scheme(), "https");
    assert_eq!(url.host_str(), Some("aur.archlinux.com"));
    assert_eq!(url.path(), "/rpc.php");
    assert_eq!(url.query(), Some("v=5&type=info&arg%5B%5D=cower"));
    assert_eq!(
        url.as_str(),
        "https://aur.archlinux.com/rpc.php?v=5&type=info&arg%5B%5D=cower"
    );
}

#[test]
fn test_rpc_info_url_with_multiple_arg() {

    let vec = vec!["cower", "pacaur", "some other package"];
    let url = AurT::new("https", "aur.archlinux.com").aur_build_rpc_info_url(&vec);
    assert!(url.is_ok());

    let url = url.unwrap();
    let mut pairs = url.query_pairs();

    // We subtract 2 for v=5 and type=info
    assert_eq!(vec.len(), pairs.count() - 2);
    assert_eq!(pairs.next(), Some((Cow::Borrowed("v"), Cow::Borrowed("5"))));
    assert_eq!(
        pairs.next(),
        Some((Cow::Borrowed("type"), Cow::Borrowed("info")))
    );
    for arg in vec {
        assert_eq!(
            pairs.next(),
            Some((Cow::Borrowed("arg[]"), Cow::Borrowed(arg)))
        );
    }
}

#[test]
fn test_rpc_info_url_with_no_arg() {
    let url = AurT::new("https", "aur.archlinux.com").aur_build_rpc_info_url(&Vec::new());
    assert!(url.is_err());
}

#[test]
fn test_rpc_search_url() {
    let url = AurT::new("https", "aur.archlinux.com")
        .aur_build_rpc_search_url(RpcBy::SearchByName, "cower");

    assert!(url.is_ok());
}

#[test]
fn empty_info_args_report_the_empty_arguments_error() {
    let url = AurT::new("https", "aur.archlinux.org").aur_build_rpc_info_url(&Vec::new());
    assert!(matches!(url, Err(AurTErrors::EmptyArgumentsVector)));
}

#[test]
fn bad_endpoint_reports_invalid_base_url() {
    let aur = AurT::new("not a scheme", "nor a domain");
    let url = aur.aur_build_rpc_info_url(&vec!["cower"]);
    assert!(matches!(url, Err(AurTErrors::InvalidBaseUrl)));
    let url = aur.aur_build_rpc_search_url(RpcBy::SearchByName, "cower");
    assert!(matches!(url, Err(AurTErrors::InvalidBaseUrl)));
}

#[test]
fn search_url_by_parameter_is_one_of_the_three_tokens() {
    let aur = AurT::new("https", "aur.archlinux.org");
    let cases = [
        (RpcBy::SearchByName, "name"),
        (RpcBy::SearchByNameDesc, "name-desc"),
        (RpcBy::SearchByMaintainer, "maintainer"),
    ];
    for (by, token) in cases {
        let url = aur.aur_build_rpc_search_url(by, "cower").unwrap();
        let pair = url
            .query_pairs()
            .find(|(k, _)| k == "by")
            .expect("search query carries a by parameter");
        assert_eq!(pair.1, token);
    }
}

#[test]
fn search_url_encodes_the_term() {
    let aur = AurT::new("https", "aur.archlinux.org");
    let url = aur
        .aur_build_rpc_search_url(RpcBy::SearchByNameDesc, "a b&c")
        .unwrap();
    assert_eq!(url.query(), Some("v=5&type=search&arg=a+b%26c&by=name-desc"));
}

#[test]
fn form_urlencode_escapes_as_the_form_serializer_does() {
    assert_eq!(cower_rs::aur::form_urlencode("plain-string_0.9*"), "plain-string_0.9*");
    assert_eq!(cower_rs::aur::form_urlencode("a b"), "a+b");
    assert_eq!(cower_rs::aur::form_urlencode("arg[]"), "arg%5B%5D");
    assert_eq!(cower_rs::aur::form_urlencode("ü"), "%C3%BC");
}
