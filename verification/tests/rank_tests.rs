use cower_rs::config::{SortKey, SortOrder};
use cower_rs::package::aur_packages_from_json;
use cower_rs::rank::rank;

const SEARCH_EXAMPLE: &str = r#"{
        "version":5,
        "type":"search",
        "resultcount":4,
        "results":[{
            "ID":266495,
            "Name":"burgaur",
            "PackageBaseID":91085,
            "PackageBase":"burgaur",
            "Version":"2.2-2",
            "Description":"A delicious AUR helper. Made from cower.",
            "URL":"https:\/\/github.com\/m45t3r\/burgaur",
            "NumVotes":7,
            "Popularity":0.000813,
            "OutOfDate":null,
            "Maintainer":"m45t3r",
            "FirstSubmitted":1425574472,
            "LastModified":1453133491,
            "URLPath":"\/cgit\/aur.git\/snapshot\/burgaur.tar.gz"
        },
        {
            "ID":404289,
            "Name":"cower",
            "PackageBaseID":44921,
            "PackageBase":"cower",
            "Version":"17-2",
            "Description":"A simple AUR agent with a pretentious name",
            "URL":"http:\/\/github.com\/falconindy\/cower",
            "NumVotes":997,
            "Popularity":13.169459,
            "OutOfDate":null,
            "Maintainer":"falconindy",
            "FirstSubmitted":1293676237,
            "LastModified":1493044041,
            "URLPath":"\/cgit\/aur.git\/snapshot\/cower.tar.gz"
        },
        {
            "ID":404277,
            "Name":"cower-git",
            "PackageBaseID":35888,
            "PackageBase":"cower-git",
            "Version":"17-1",
            "Description":"A simple AUR agent with a pretentious name",
            "URL":"http:\/\/github.com\/falconindy\/cower",
            "NumVotes":81,
            "Popularity":0.385032,
            "OutOfDate":null,
            "Maintainer":"falconindy",
            "FirstSubmitted":1269401179,
            "LastModified":1493040653,
            "URLPath":"\/cgit\/aur.git\/snapshot\/cower-git.tar.gz"
        },
        {
            "ID":266497,
            "Name":"burgaur-git",
            "PackageBaseID":91086,
            "PackageBase":"burgaur-git",
            "Version":"2.2-2",
            "Description":"A delicious AUR helper. Made from cower.",
            "URL":"https:\/\/github.com\/m45t3r\/burgaur",
            "NumVotes":1,
            "Popularity":0.004006,
            "OutOfDate":null,
            "Maintainer":"m45t3r",
            "FirstSubmitted":1425574489,
            "LastModified":1453133995,
            "URLPath":"\/cgit\/aur.git\/snapshot\/burgaur-git.tar.gz"
        }]
    }"#;

#[test]
fn ranking_by_name_sorts_lexicographically() {
    let mut v = aur_packages_from_json(SEARCH_EXAMPLE).unwrap();
    rank(&mut v, SortKey::Name, SortOrder::Forward);
    let names: Vec<&str> = v.iter().map(|p| p.name.as_str()).collect();
    assert_eq!(names, vec!["burgaur", "burgaur-git", "cower", "cower-git"]);
}

#[test]
fn ranking_by_name_is_idempotent() {
    let mut v = aur_packages_from_json(SEARCH_EXAMPLE).unwrap();
    rank(&mut v, SortKey::Name, SortOrder::Forward);
    let once = v.clone();
    rank(&mut v, SortKey::Name, SortOrder::Forward);
    assert_eq!(v, once);
}

#[test]
fn reverse_then_forward_gives_the_forward_sort() {
    let mut direct = aur_packages_from_json(SEARCH_EXAMPLE).unwrap();
    rank(&mut direct, SortKey::Name, SortOrder::Forward);

    let mut twice = aur_packages_from_json(SEARCH_EXAMPLE).unwrap();
    rank(&mut twice, SortKey::Name, SortOrder::Reverse);
    rank(&mut twice, SortKey::Name, SortOrder::Forward);
    assert_eq!(twice, direct);
}

#[test]
fn reverse_ranking_reverses_the_comparator_sign() {
    let mut v = aur_packages_from_json(SEARCH_EXAMPLE).unwrap();
    rank(&mut v, SortKey::Votes, SortOrder::Reverse);
    let votes: Vec<i64> = v.iter().map(|p| p.votes).collect();
    assert_eq!(votes, vec![997, 81, 7, 1]);
}

#[test]
fn ranking_by_version_uses_the_version_comparator() {
    let mut v = aur_packages_from_json(SEARCH_EXAMPLE).unwrap();
    rank(&mut v, SortKey::Version, SortOrder::Forward);
    let versions: Vec<&str> = v.iter().map(|p| p.version.as_str()).collect();
    assert_eq!(versions, vec!["2.2-2", "2.2-2", "17-1", "17-2"]);
}

#[test]
fn ranking_is_stable_on_ties() {
    let mut v = aur_packages_from_json(SEARCH_EXAMPLE).unwrap();
    // The two burgaur records tie on version "2.2-2" and keep input order.
    rank(&mut v, SortKey::Version, SortOrder::Forward);
    assert_eq!(v[0].name, "burgaur");
    assert_eq!(v[1].name, "burgaur-git");
}
