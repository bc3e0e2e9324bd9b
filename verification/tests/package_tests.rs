use cower_rs::json::json_unparse;
use cower_rs::package::{aur_packages_from_json, query_to_doc, AurPkg, PkgError, Query};
use cower_rs::package::sort_cmpmaint;
use cower_rs::package::sort_cmpood;
use cower_rs::package::sort_cmppopularity;
use cower_rs::package::sort_cmpvotes;

const JSON_EXAMPLE: &str = r#"{
        "version":5,
        "type":"multiinfo",
        "resultcount":1,
        "results":[{
            "ID":229417,
            "Name":"cower",
            "PackageBaseID":44921,
            "PackageBase":"cower",
            "Version":"14-2",
            "Description":"A simple AUR agent with a pretentious name",
            "URL":"http:\/\/github.com\/falconindy\/cower",
            "NumVotes":590,
            "Popularity":24.595536,
            "OutOfDate":null,
            "Maintainer":"falconindy",
            "FirstSubmitted":1293676237,
            "LastModified":1441804093,
            "URLPath":"\/cgit\/aur.git\/snapshot\/cower.tar.gz",
            "Depends":[
                "curl",
                "openssl",
                "pacman",
                "yajl"
            ],
            "MakeDepends":[
                "perl"
            ],
            "License":[
                "MIT"
            ],
            "Keywords":[]
        }]
    }"#;

const SEARCH_EXAMPLE: &str = r#"{
        "version":5,
        "type":"search",
        "resultcount":4,
        "results":[{
            "ID":266495,
            "Name":"burgaur",
            "PackageBaseID":91085,
            "PackageBase":"burgaur",
            "Version":"2.2-2",
            "Description":"A delicious AUR helper. Made from cower.",
            "URL":"https:\/\/github.com\/m45t3r\/burgaur",
            "NumVotes":7,
            "Popularity":0.000813,
            "OutOfDate":null,
            "Maintainer":"m45t3r",
            "FirstSubmitted":1425574472,
            "LastModified":1453133491,
            "URLPath":"\/cgit\/aur.git\/snapshot\/burgaur.tar.gz"
        },
        {
            "ID":266497,
            "Name":"burgaur-git",
            "PackageBaseID":91086,
            "PackageBase":"burgaur-git",
            "Version":"2.2-2",
            "Description":"A delicious AUR helper. Made from cower.",
            "URL":"https:\/\/github.com\/m45t3r\/burgaur",
            "NumVotes":1,
            "Popularity":0.004006,
            "OutOfDate":null,
            "Maintainer":"m45t3r",
            "FirstSubmitted":1425574489,
            "LastModified":1453133995,
            "URLPath":"\/cgit\/aur.git\/snapshot\/burgaur-git.tar.gz"
        },
        {
            "ID":404277,
            "Name":"cower-git",
            "PackageBaseID":35888,
            "PackageBase":"cower-git",
            "Version":"17-1",
            "Description":"A simple AUR agent with a pretentious name",
            "URL":"http:\/\/github.com\/falconindy\/cower",
            "NumVotes":81,
            "Popularity":0.385032,
            "OutOfDate":null,
            "Maintainer":"falconindy",
            "FirstSubmitted":1269401179,
            "LastModified":1493040653,
            "URLPath":"\/cgit\/aur.git\/snapshot\/cower-git.tar.gz"
        },
        {
            "ID":404289,
            "Name":"cower",
            "PackageBaseID":44921,
            "PackageBase":"cower",
            "Version":"17-2",
            "Description":"A simple AUR agent with a pretentious name",
            "URL":"http:\/\/github.com\/falconindy\/cower",
            "NumVotes":997,
            "Popularity":13.169459,
            "OutOfDate":null,
            "Maintainer":"falconindy",
            "FirstSubmitted":1293676237,
            "LastModified":1493044041,
            "URLPath":"\/cgit\/aur.git\/snapshot\/cower.tar.gz"
        }]
    }"#;

#[test]
fn test_parsing_json() {
    let input = aur_packages_from_json(JSON_EXAMPLE);
    assert!(input.is_ok());

    let input = input.unwrap();
    assert_eq!(input.len(), 1);

    let input = &input[0];
    assert_eq!(input.package_id, 229417);
    assert_eq!(input.name, "cower");
    assert_eq!(input.pkgbaseid, 44921);
    assert_eq!(input.version, "14-2");
    assert_eq!(
        input.description,
        "A simple AUR agent with a pretentious name"
    );
    assert_eq!(input.upstream_url, "http://github.com/falconindy/cower");
    assert_eq!(input.votes, 590);
    assert_eq!(input.popularity.bits, 24.595536f64.to_bits());
    assert!(input.out_of_date.is_none());
    assert_eq!(input.maintainer.as_deref(), Some("falconindy"));
    assert_eq!(input.submitted_s, 1293676237);
    assert_eq!(input.modified_s, 1441804093);
    assert_eq!(input.aur_urlpath, "/cgit/aur.git/snapshot/cower.tar.gz");

    assert_eq!(input.depends.len(), 4);
    assert_eq!(input.depends[0], "curl");
    assert_eq!(input.depends[1], "openssl");
    assert_eq!(input.depends[2], "pacman");
    assert_eq!(input.depends[3], "yajl");

    assert_eq!(input.makedepends.len(), 1);
    assert_eq!(input.makedepends[0], "perl");

    assert_eq!(input.licenses.len(), 1);
    assert_eq!(input.licenses[0], "MIT");

    assert_eq!(input.keywords.len(), 0);
}

#[test]
fn test_parsing_search() {
    let input = aur_packages_from_json(SEARCH_EXAMPLE);
    assert!(input.is_ok());

    let input = input.unwrap();
    assert_eq!(input.len(), 4);
}

#[test]
fn search_results_keep_their_envelope_order() {
    let input = aur_packages_from_json(SEARCH_EXAMPLE).unwrap();
    let names: Vec<&str> = input.iter().map(|p| p.name.as_str()).collect();
    assert_eq!(names, vec!["burgaur", "burgaur-git", "cower-git", "cower"]);
}

#[test]
fn envelope_round_trip_reproduces_every_field() {
    let records = aur_packages_from_json(JSON_EXAMPLE).unwrap();
    let query = Query {
        version: 5,
        query_type: String::from("multiinfo"),
        resultcount: 1,
        results: records.clone(),
    };
    let doc = query_to_doc(&query);
    let text = json_unparse(&doc);
    let reread = aur_packages_from_json(&text).unwrap();
    assert_eq!(reread, records);
    let one = &reread[0];
    assert_eq!(one.package_id, 229417);
    assert_eq!(one.name, "cower");
    assert_eq!(one.votes, 590);
    assert_eq!(one.popularity.bits, 24.595536f64.to_bits());
    assert!(one.out_of_date.is_none());
    // The printed text carries the same popularity token.
    assert!(text.contains("24.595536"));
}

#[test]
fn malformed_json_reports_a_syntax_fault() {
    let r = aur_packages_from_json("{not json");
    assert!(matches!(r, Err(PkgError::Syntax { .. })));
}

#[test]
fn missing_required_field_is_named() {
    let text = r#"{"version":5,"type":"info","resultcount":1,
        "results":[{"Name":"x"}]}"#;
    match aur_packages_from_json(text) {
        Err(PkgError::MissingField { field }) => assert_eq!(field, "Description"),
        other => panic!("expected a missing-field fault, got {:?}", other),
    }
}

#[test]
fn mistyped_field_is_named() {
    let text = r#"{"version":5,"type":"info","resultcount":1,
        "results":[{"Name":7}]}"#;
    match aur_packages_from_json(text) {
        Err(PkgError::WrongType { field }) => assert_eq!(field, "Name"),
        other => panic!("expected a wrong-type fault, got {:?}", other),
    }
}

#[test]
fn missing_envelope_field_is_named() {
    let text = r#"{"type":"info","resultcount":0,"results":[]}"#;
    match aur_packages_from_json(text) {
        Err(PkgError::MissingField { field }) => assert_eq!(field, "version"),
        other => panic!("expected a missing-field fault, got {:?}", other),
    }
}

#[test]
fn omitted_list_fields_default_to_empty() {
    let input = aur_packages_from_json(SEARCH_EXAMPLE).unwrap();
    let one = &input[0];
    assert!(one.depends.is_empty());
    assert!(one.licenses.is_empty());
    assert!(one.keywords.is_empty());
}

fn comparator_fixture() -> Vec<AurPkg> {
    aur_packages_from_json(SEARCH_EXAMPLE).unwrap()
}

#[test]
fn votes_comparator_orders_numerically() {
    let v = comparator_fixture();
    assert_eq!(sort_cmpvotes(&v[0], &v[3]), std::cmp::Ordering::Less);
    assert_eq!(sort_cmpvotes(&v[3], &v[0]), std::cmp::Ordering::Greater);
    assert_eq!(sort_cmpvotes(&v[1], &v[1]), std::cmp::Ordering::Equal);
}

#[test]
fn maintainer_comparator_puts_absent_first() {
    let v = comparator_fixture();
    let mut orphan = v[0].clone();
    orphan.maintainer = None;
    assert_eq!(sort_cmpmaint(&orphan, &v[0]), std::cmp::Ordering::Less);
    assert_eq!(sort_cmpmaint(&v[0], &orphan), std::cmp::Ordering::Greater);
}

#[test]
fn out_of_date_comparator_puts_current_first() {
    let v = comparator_fixture();
    let mut stale = v[0].clone();
    stale.out_of_date = Some(1500000000);
    assert_eq!(sort_cmpood(&v[0], &stale), std::cmp::Ordering::Less);
    assert_eq!(sort_cmpood(&stale, &v[0]), std::cmp::Ordering::Greater);
}

#[test]
fn popularity_comparator_follows_the_float_order() {
    let v = comparator_fixture();
    // 0.000813 < 13.169459
    assert_eq!(sort_cmppopularity(&v[0], &v[3]), std::cmp::Ordering::Less);
    let mut neg = v[0].clone();
    neg.popularity.bits = (-1.5f64).to_bits();
    assert_eq!(sort_cmppopularity(&neg, &v[0]), std::cmp::Ordering::Less);
    let mut zero_pos = v[0].clone();
    zero_pos.popularity.bits = 0.0f64.to_bits();
    let mut zero_neg = v[0].clone();
    zero_neg.popularity.bits = (-0.0f64).to_bits();
    assert_eq!(
        sort_cmppopularity(&zero_pos, &zero_neg),
        std::cmp::Ordering::Equal
    );
}

#[test]
fn nan_popularity_sorts_as_less_than() {
    let v = comparator_fixture();
    let mut nan = v[0].clone();
    nan.popularity.bits = f64::NAN.to_bits();
    assert_eq!(sort_cmppopularity(&nan, &v[0]), std::cmp::Ordering::Less);
    assert_eq!(sort_cmppopularity(&v[0], &nan), std::cmp::Ordering::Less);
}
