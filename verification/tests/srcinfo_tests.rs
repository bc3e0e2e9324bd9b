use cower_rs::srcinfo::{get_dependencies_from_srcinfo, load_targets_from_files};

const SRCINFO: &str = r##"
# Generated by mksrcinfo v8
# Wed Mar 28 18:45:02 UTC 2018
pkgbase = aurutils
	pkgdesc = helper tools for the arch user repository
	pkgver = 1.5.3
	pkgrel = 10
	url = https://github.com/AladW/aurutils
	arch = any
	license = custom:ISC
	makedepends = git
	depends = pacman>=5
	depends = git
	depends = jq
	depends = pacutils>=0.4
	optdepends = devtools: systemd-nspawn support
	optdepends = vifm: build file interaction
	optdepends = aria2: threaded downloads
	optdepends = parallel: threaded downloads
	optdepends = expac: aursift script
	optdepends = repose: repo-add alternative
	source = aurutils-1.5.3.tar.gz::https://github.com/AladW/aurutils/archive/1.5.3.tar.gz
	source = aurutils-1.5.3.tar.gz.asc::https://github.com/AladW/aurutils/releases/download/1.5.3/1.5.3.tar.gz.asc
	source = 0001-aurbuild-backport-fix-for-236.patch
	source = 0002-aursync-make-L-optional-281.patch
	source = 0003-aurbuild-update-default-options.patch
	source = 0004-aurfetch-specify-git-work-tree-git-dir-274.patch
	source = 0005-specify-absolute-paths-for-GIT_DIR-GIT_WORK_TREE.patch
	source = 0006-aurfetch-aursearch-use-aria2-no-conf.patch
	source = 0007-aurchain-do-not-sort-results-when-appending.patch
	sha256sums = a09088a460e352179dbf799d915e866af47aa280474a9c943f8e6885490734c5
	sha256sums = SKIP
	sha256sums = 8bf1fe675284a8e91aa37bdbf035c0158f910446fdd10d21a705e89ff711c883
	sha256sums = 75326f1f932b545754eb05ef62ad637874367d276ee584ff9544f0c0178e39b8
	sha256sums = bb03ef84bd3e7b28af9d2a829a61869c4845bdce65c897d267e691091033fe8a
	sha256sums = 40efaedd46cb98e0af0faf8cd61dc36eaa2638cf429d280beaf5c37f09a4369b
	sha256sums = 2fc7599245c53cad4b3b404a9ecf0ef122cf6be66d18a156e83ebfd1923b5359
	sha256sums = 8f4c9ea372827db3a4d4aa8e67e4fd962384197fc1684ba50e4f739d2917402f
	sha256sums = 1cb14e6605e38a1bc127d7ea576a02dfbc2d3c0e009597980fe4040a65b347f2

pkgname = aurutils
"##;

#[test]
fn test_get_deps() {
    let deps = get_dependencies_from_srcinfo(SRCINFO);
    assert_eq!(deps.len(), 5);
    assert!(deps.contains(&"pacman>=5".to_owned()));
    // Will contain two instances of "git"
    assert!(deps.contains(&"git".to_owned()));
    assert!(deps.contains(&"jq".to_owned()));
    assert!(deps.contains(&"pacutils>=0.4".to_owned()));
}

#[test]
fn raw_values_keep_their_version_constraints_in_line_order() {
    let deps = get_dependencies_from_srcinfo(
        "depends = pacman>=5\ndepends = git\ndepends = jq\ndepends = pacutils>=0.4\nmakedepends = git\n",
    );
    assert_eq!(deps, vec!["pacman>=5", "git", "jq", "pacutils>=0.4", "git"]);
}

#[test]
fn targets_are_truncated_sorted_and_deduplicated() {
    let deps = load_targets_from_files(&vec![String::from(SRCINFO)]);
    // Deduplication removes one of the two "git" entries.
    assert_eq!(deps.len(), 4);
    assert_eq!(deps, vec!["git", "jq", "pacman", "pacutils"]);
}

#[test]
fn targets_concatenate_across_manifests() {
    let a = String::from("depends = zsh\ndepends = git\n");
    let b = String::from("checkdepends = git\nmakedepends = asciidoc>=9\n");
    let deps = load_targets_from_files(&vec![a, b]);
    assert_eq!(deps, vec!["asciidoc", "git", "zsh"]);
}

#[test]
fn a_value_that_starts_with_a_constraint_is_kept_as_empty() {
    let deps = load_targets_from_files(&vec![String::from("depends = >=5\ndepends = jq\n")]);
    assert_eq!(deps, vec!["", "jq"]);
}

#[test]
fn a_value_may_itself_carry_an_equals_sign() {
    let deps = get_dependencies_from_srcinfo("depends = foo=1.2\n");
    assert_eq!(deps, vec!["foo=1.2"]);
}

#[test]
fn non_dependency_lines_are_ignored() {
    let deps = get_dependencies_from_srcinfo("pkgver = 1.0\nnothing here\n");
    assert!(deps.is_empty());
}
