//! The package record: one registry entry, its typed extraction from the
//! JSON response envelope, and the comparators that rank result sets.

use vstd::prelude::*;
use crate::json::{JsonVal, JsonNum, obj_get, lookup, json_parse, json_doc_of};
use crate::config::SortKey;
use crate::strutil::{lex_cmp, str_cmp, lemma_lex_cmp_flip};
use crate::vercmp::{vercmp, vercmp_str, lemma_vercmp_antisym};
use vstd::string::*;

verus! {

/// A popularity score: the bits of its value as a double, for ordering, and
/// the number token it was read from, for printing it back.
#[derive(Debug, Clone, PartialEq)]
pub struct Popularity {
    pub bits: u64,
    pub repr: String,
}

/// One registry entry.
#[derive(Debug, Clone, PartialEq)]
pub struct AurPkg {
    pub name: String,
    pub description: String,
    pub maintainer: Option<String>,
    pub pkgbase: String,
    pub upstream_url: String,
    pub aur_urlpath: String,
    pub version: String,
    pub category_id: u64,
    pub package_id: i64,
    pub pkgbaseid: i64,
    pub votes: i64,
    pub popularity: Popularity,
    pub out_of_date: Option<u64>,
    pub submitted_s: u64,
    pub modified_s: u64,
    pub licenses: Vec<String>,
    pub conflicts: Vec<String>,
    pub depends: Vec<String>,
    pub groups: Vec<String>,
    pub makedepends: Vec<String>,
    pub optdepends: Vec<String>,
    pub checkdepends: Vec<String>,
    pub provides: Vec<String>,
    pub replaces: Vec<String>,
    pub keywords: Vec<String>,
}

/// The response envelope around a result set.
#[derive(Debug, Clone, PartialEq)]
pub struct Query {
    pub version: u64,
    pub query_type: String,
    pub resultcount: u64,
    pub results: Vec<AurPkg>,
}

/// The model of a popularity score.
pub struct PopView {
    pub bits: u64,
    pub repr: Seq<char>,
}

/// The model of a package record.
pub struct AurPkgView {
    pub name: Seq<char>,
    pub description: Seq<char>,
    pub maintainer: Option<Seq<char>>,
    pub pkgbase: Seq<char>,
    pub upstream_url: Seq<char>,
    pub aur_urlpath: Seq<char>,
    pub version: Seq<char>,
    pub category_id: u64,
    pub package_id: i64,
    pub pkgbaseid: i64,
    pub votes: i64,
    pub popularity: PopView,
    pub out_of_date: Option<u64>,
    pub submitted_s: u64,
    pub modified_s: u64,
    pub licenses: Seq<Seq<char>>,
    pub conflicts: Seq<Seq<char>>,
    pub depends: Seq<Seq<char>>,
    pub groups: Seq<Seq<char>>,
    pub makedepends: Seq<Seq<char>>,
    pub optdepends: Seq<Seq<char>>,
    pub checkdepends: Seq<Seq<char>>,
    pub provides: Seq<Seq<char>>,
    pub replaces: Seq<Seq<char>>,
    pub keywords: Seq<Seq<char>>,
}

impl View for Popularity {
    type V = PopView;

    open spec fn view(&self) -> PopView {
        PopView { bits: self.bits, repr: self.repr@ }
    }
}

impl View for AurPkg {
    type V = AurPkgView;

    open spec fn view(&self) -> AurPkgView {
        AurPkgView {
            name: self.name@,
            description: self.description@,
            maintainer: match self.maintainer {
                Some(m) => Some(m@),
                None => None,
            },
            pkgbase: self.pkgbase@,
            upstream_url: self.upstream_url@,
            aur_urlpath: self.aur_urlpath@,
            version: self.version@,
            category_id: self.category_id,
            package_id: self.package_id,
            pkgbaseid: self.pkgbaseid,
            votes: self.votes,
            popularity: self.popularity@,
            out_of_date: self.out_of_date,
            submitted_s: self.submitted_s,
            modified_s: self.modified_s,
            licenses: self.licenses.deep_view(),
            conflicts: self.conflicts.deep_view(),
            depends: self.depends.deep_view(),
            groups: self.groups.deep_view(),
            makedepends: self.makedepends.deep_view(),
            optdepends: self.optdepends.deep_view(),
            checkdepends: self.checkdepends.deep_view(),
            provides: self.provides.deep_view(),
            replaces: self.replaces.deep_view(),
            keywords: self.keywords.deep_view(),
        }
    }
}

impl DeepView for AurPkg {
    type V = AurPkgView;

    open spec fn deep_view(&self) -> AurPkgView {
        self.view()
    }
}

/// A fault while reading a response.
#[derive(Debug)]
pub enum PkgError {
    Syntax { msg: String },
    MissingField { field: String },
    WrongType { field: String },
}

/// The model of a schema fault: a missing field, or one of the wrong type,
/// by name.
pub enum JErr {
    Missing(Seq<char>),
    Wrong(Seq<char>),
}

/// Does `e` report the schema fault `je`?
pub open spec fn pkg_err_is(e: PkgError, je: JErr) -> bool {
    match e {
        PkgError::MissingField { field } => je matches JErr::Missing(n) && field@ == n,
        PkgError::WrongType { field } => je matches JErr::Wrong(n) && field@ == n,
        PkgError::Syntax { .. } => false,
    }
}

// ---------------------------------------------------------------------------
// Schema readers over a JSON object
// ---------------------------------------------------------------------------

/// A required string field.
pub open spec fn req_str(fields: Seq<(String, JsonVal)>, name: Seq<char>) -> Result<
    Seq<char>,
    JErr,
> {
    match obj_get(fields, name) {
        None => Err(JErr::Missing(name)),
        Some(JsonVal::Str(s)) => Ok(s@),
        Some(_) => Err(JErr::Wrong(name)),
    }
}

/// An optional string field: absent or null reads as `None`.
pub open spec fn opt_str(fields: Seq<(String, JsonVal)>, name: Seq<char>) -> Result<
    Option<Seq<char>>,
    JErr,
> {
    match obj_get(fields, name) {
        None => Ok(None),
        Some(JsonVal::Null) => Ok(None),
        Some(JsonVal::Str(s)) => Ok(Some(s@)),
        Some(_) => Err(JErr::Wrong(name)),
    }
}

/// A required non-negative integer field.
pub open spec fn req_u64(fields: Seq<(String, JsonVal)>, name: Seq<char>) -> Result<u64, JErr> {
    match obj_get(fields, name) {
        None => Err(JErr::Missing(name)),
        Some(JsonVal::Num(n)) => match n.uval {
            Some(v) => Ok(v),
            None => Err(JErr::Wrong(name)),
        },
        Some(_) => Err(JErr::Wrong(name)),
    }
}

/// A non-negative integer field that defaults to zero when absent.
pub open spec fn dflt_u64(fields: Seq<(String, JsonVal)>, name: Seq<char>) -> Result<u64, JErr> {
    match obj_get(fields, name) {
        None => Ok(0u64),
        Some(JsonVal::Num(n)) => match n.uval {
            Some(v) => Ok(v),
            None => Err(JErr::Wrong(name)),
        },
        Some(_) => Err(JErr::Wrong(name)),
    }
}

/// A required signed integer field.
pub open spec fn req_i64(fields: Seq<(String, JsonVal)>, name: Seq<char>) -> Result<i64, JErr> {
    match obj_get(fields, name) {
        None => Err(JErr::Missing(name)),
        Some(JsonVal::Num(n)) => match n.ival {
            Some(v) => Ok(v),
            None => Err(JErr::Wrong(name)),
        },
        Some(_) => Err(JErr::Wrong(name)),
    }
}

/// An optional timestamp: absent or null reads as `None`.
pub open spec fn opt_u64(fields: Seq<(String, JsonVal)>, name: Seq<char>) -> Result<
    Option<u64>,
    JErr,
> {
    match obj_get(fields, name) {
        None => Ok(None),
        Some(JsonVal::Null) => Ok(None),
        Some(JsonVal::Num(n)) => match n.uval {
            Some(v) => Ok(Some(v)),
            None => Err(JErr::Wrong(name)),
        },
        Some(_) => Err(JErr::Wrong(name)),
    }
}

/// A required number field read as a popularity score.
pub open spec fn req_pop(fields: Seq<(String, JsonVal)>, name: Seq<char>) -> Result<PopView, JErr> {
    match obj_get(fields, name) {
        None => Err(JErr::Missing(name)),
        Some(JsonVal::Num(n)) => match n.fbits {
            Some(b) => Ok(PopView { bits: b, repr: n.repr@ }),
            None => Err(JErr::Wrong(name)),
        },
        Some(_) => Err(JErr::Wrong(name)),
    }
}

/// The strings of an array of strings; any other element is a fault.
pub open spec fn str_items(vals: Seq<JsonVal>, name: Seq<char>) -> Result<Seq<Seq<char>>, JErr>
    decreases vals.len(),
{
    if vals.len() == 0 {
        Ok(Seq::empty())
    } else {
        match str_items(vals.drop_last(), name) {
            Err(e) => Err(e),
            Ok(pre) => match vals.last() {
                JsonVal::Str(s) => Ok(pre.push(s@)),
                _ => Err(JErr::Wrong(name)),
            },
        }
    }
}

/// A string-list field that defaults to empty when absent.
pub open spec fn list_field(fields: Seq<(String, JsonVal)>, name: Seq<char>) -> Result<
    Seq<Seq<char>>,
    JErr,
> {
    match obj_get(fields, name) {
        None => Ok(Seq::empty()),
        Some(JsonVal::Arr(a)) => str_items(a@, name),
        Some(_) => Err(JErr::Wrong(name)),
    }
}

// ---------------------------------------------------------------------------
// The record schema
// ---------------------------------------------------------------------------

/// The first schema fault in a record object, reading the fields in a fixed
/// order; `None` when the record is well-formed.
pub open spec fn record_err(fields: Seq<(String, JsonVal)>) -> Option<JErr> {
    if req_str(fields, "Name"@) is Err {
        Some(req_str(fields, "Name"@)->Err_0)
    } else if req_str(fields, "Description"@) is Err {
        Some(req_str(fields, "Description"@)->Err_0)
    } else if opt_str(fields, "Maintainer"@) is Err {
        Some(opt_str(fields, "Maintainer"@)->Err_0)
    } else if req_str(fields, "PackageBase"@) is Err {
        Some(req_str(fields, "PackageBase"@)->Err_0)
    } else if req_str(fields, "URL"@) is Err {
        Some(req_str(fields, "URL"@)->Err_0)
    } else if req_str(fields, "URLPath"@) is Err {
        Some(req_str(fields, "URLPath"@)->Err_0)
    } else if req_str(fields, "Version"@) is Err {
        Some(req_str(fields, "Version"@)->Err_0)
    } else if dflt_u64(fields, "CategoryID"@) is Err {
        Some(dflt_u64(fields, "CategoryID"@)->Err_0)
    } else if req_i64(fields, "ID"@) is Err {
        Some(req_i64(fields, "ID"@)->Err_0)
    } else if req_i64(fields, "PackageBaseID"@) is Err {
        Some(req_i64(fields, "PackageBaseID"@)->Err_0)
    } else if req_i64(fields, "NumVotes"@) is Err {
        Some(req_i64(fields, "NumVotes"@)->Err_0)
    } else if req_pop(fields, "Popularity"@) is Err {
        Some(req_pop(fields, "Popularity"@)->Err_0)
    } else if opt_u64(fields, "OutOfDate"@) is Err {
        Some(opt_u64(fields, "OutOfDate"@)->Err_0)
    } else if req_u64(fields, "FirstSubmitted"@) is Err {
        Some(req_u64(fields, "FirstSubmitted"@)->Err_0)
    } else if req_u64(fields, "LastModified"@) is Err {
        Some(req_u64(fields, "LastModified"@)->Err_0)
    } else if list_field(fields, "License"@) is Err {
        Some(list_field(fields, "License"@)->Err_0)
    } else if list_field(fields, "Conflicts"@) is Err {
        Some(list_field(fields, "Conflicts"@)->Err_0)
    } else if list_field(fields, "Depends"@) is Err {
        Some(list_field(fields, "Depends"@)->Err_0)
    } else if list_field(fields, "Groups"@) is Err {
        Some(list_field(fields, "Groups"@)->Err_0)
    } else if list_field(fields, "MakeDepends"@) is Err {
        Some(list_field(fields, "MakeDepends"@)->Err_0)
    } else if list_field(fields, "OptDepends"@) is Err {
        Some(list_field(fields, "OptDepends"@)->Err_0)
    } else if list_field(fields, "CheckDepends"@) is Err {
        Some(list_field(fields, "CheckDepends"@)->Err_0)
    } else if list_field(fields, "Provides"@) is Err {
        Some(list_field(fields, "Provides"@)->Err_0)
    } else if list_field(fields, "Replaces"@) is Err {
        Some(list_field(fields, "Replaces"@)->Err_0)
    } else if list_field(fields, "Keywords"@) is Err {
        Some(list_field(fields, "Keywords"@)->Err_0)
    } else {
        None
    }
}

/// The record view of a well-formed record object.
pub open spec fn record_view(fields: Seq<(String, JsonVal)>) -> AurPkgView {
    AurPkgView {
        name: req_str(fields, "Name"@)->Ok_0,
        description: req_str(fields, "Description"@)->Ok_0,
        maintainer: opt_str(fields, "Maintainer"@)->Ok_0,
        pkgbase: req_str(fields, "PackageBase"@)->Ok_0,
        upstream_url: req_str(fields, "URL"@)->Ok_0,
        aur_urlpath: req_str(fields, "URLPath"@)->Ok_0,
        version: req_str(fields, "Version"@)->Ok_0,
        category_id: dflt_u64(fields, "CategoryID"@)->Ok_0,
        package_id: req_i64(fields, "ID"@)->Ok_0,
        pkgbaseid: req_i64(fields, "PackageBaseID"@)->Ok_0,
        votes: req_i64(fields, "NumVotes"@)->Ok_0,
        popularity: req_pop(fields, "Popularity"@)->Ok_0,
        out_of_date: opt_u64(fields, "OutOfDate"@)->Ok_0,
        submitted_s: req_u64(fields, "FirstSubmitted"@)->Ok_0,
        modified_s: req_u64(fields, "LastModified"@)->Ok_0,
        licenses: list_field(fields, "License"@)->Ok_0,
        conflicts: list_field(fields, "Conflicts"@)->Ok_0,
        depends: list_field(fields, "Depends"@)->Ok_0,
        groups: list_field(fields, "Groups"@)->Ok_0,
        makedepends: list_field(fields, "MakeDepends"@)->Ok_0,
        optdepends: list_field(fields, "OptDepends"@)->Ok_0,
        checkdepends: list_field(fields, "CheckDepends"@)->Ok_0,
        provides: list_field(fields, "Provides"@)->Ok_0,
        replaces: list_field(fields, "Replaces"@)->Ok_0,
        keywords: list_field(fields, "Keywords"@)->Ok_0,
    }
}

/// What one element of `results` means: the record it describes, or the
/// first schema fault in it.
pub open spec fn spec_record_of(d: JsonVal) -> Result<AurPkgView, JErr> {
    match d {
        JsonVal::Obj(fields) => match record_err(fields@) {
            Some(e) => Err(e),
            None => Ok(record_view(fields@)),
        },
        _ => Err(JErr::Wrong("results"@)),
    }
}

/// The records of a result array, in order; a faulty record stops the read.
pub open spec fn spec_records_of(vals: Seq<JsonVal>) -> Result<Seq<AurPkgView>, JErr>
    decreases vals.len(),
{
    if vals.len() == 0 {
        Ok(Seq::empty())
    } else {
        match spec_records_of(vals.drop_last()) {
            Err(e) => Err(e),
            Ok(pre) => match spec_record_of(vals.last()) {
                Ok(v) => Ok(pre.push(v)),
                Err(e) => Err(e),
            },
        }
    }
}

/// What a response document means: its result records in order, or the
/// first schema fault.  The envelope must carry its `version`, `type`,
/// `resultcount` and `results` fields.
pub open spec fn spec_packages_of(doc: JsonVal) -> Result<Seq<AurPkgView>, JErr> {
    match doc {
        JsonVal::Obj(fields) => if req_u64(fields@, "version"@) is Err {
            Err(req_u64(fields@, "version"@)->Err_0)
        } else if req_str(fields@, "type"@) is Err {
            Err(req_str(fields@, "type"@)->Err_0)
        } else if req_u64(fields@, "resultcount"@) is Err {
            Err(req_u64(fields@, "resultcount"@)->Err_0)
        } else {
            match obj_get(fields@, "results"@) {
                None => Err(JErr::Missing("results"@)),
                Some(JsonVal::Arr(a)) => spec_records_of(a@),
                Some(_) => Err(JErr::Wrong("results"@)),
            }
        },
        _ => Err(JErr::Wrong("document"@)),
    }
}

// ---------------------------------------------------------------------------
// Executable extraction
// ---------------------------------------------------------------------------

fn get_req_str(fields: &Vec<(String, JsonVal)>, name: &str) -> (r: Result<String, PkgError>)
    ensures
        match req_str(fields@, name@) {
            Ok(s) => r matches Ok(v) && v@ == s,
            Err(je) => r matches Err(e) && pkg_err_is(e, je),
        },
{
    match lookup(fields, name) {
        None => Err(PkgError::MissingField { field: String::from_str(name) }),
        Some(v) => match v {
            JsonVal::Str(s) => Ok(s.clone()),
            _ => Err(PkgError::WrongType { field: String::from_str(name) }),
        },
    }
}

fn get_opt_str(fields: &Vec<(String, JsonVal)>, name: &str) -> (r: Result<
    Option<String>,
    PkgError,
>)
    ensures
        match opt_str(fields@, name@) {
            Ok(s) => r matches Ok(v) && (match (v, s) {
                (Some(vv), Some(ss)) => vv@ == ss,
                (None, None) => true,
                _ => false,
            }),
            Err(je) => r matches Err(e) && pkg_err_is(e, je),
        },
{
    match lookup(fields, name) {
        None => Ok(None),
        Some(v) => match v {
            JsonVal::Null => Ok(None),
            JsonVal::Str(s) => Ok(Some(s.clone())),
            _ => Err(PkgError::WrongType { field: String::from_str(name) }),
        },
    }
}

fn get_req_u64(fields: &Vec<(String, JsonVal)>, name: &str) -> (r: Result<u64, PkgError>)
    ensures
        match req_u64(fields@, name@) {
            Ok(s) => r == Ok::<u64, PkgError>(s),
            Err(je) => r matches Err(e) && pkg_err_is(e, je),
        },
{
    match lookup(fields, name) {
        None => Err(PkgError::MissingField { field: String::from_str(name) }),
        Some(v) => match v {
            JsonVal::Num(n) => match n.uval {
                Some(u) => Ok(u),
                None => Err(PkgError::WrongType { field: String::from_str(name) }),
            },
            _ => Err(PkgError::WrongType { field: String::from_str(name) }),
        },
    }
}

fn get_dflt_u64(fields: &Vec<(String, JsonVal)>, name: &str) -> (r: Result<u64, PkgError>)
    ensures
        match dflt_u64(fields@, name@) {
            Ok(s) => r == Ok::<u64, PkgError>(s),
            Err(je) => r matches Err(e) && pkg_err_is(e, je),
        },
{
    match lookup(fields, name) {
        None => Ok(0),
        Some(v) => match v {
            JsonVal::Num(n) => match n.uval {
                Some(u) => Ok(u),
                None => Err(PkgError::WrongType { field: String::from_str(name) }),
            },
            _ => Err(PkgError::WrongType { field: String::from_str(name) }),
        },
    }
}

fn get_req_i64(fields: &Vec<(String, JsonVal)>, name: &str) -> (r: Result<i64, PkgError>)
    ensures
        match req_i64(fields@, name@) {
            Ok(s) => r == Ok::<i64, PkgError>(s),
            Err(je) => r matches Err(e) && pkg_err_is(e, je),
        },
{
    match lookup(fields, name) {
        None => Err(PkgError::MissingField { field: String::from_str(name) }),
        Some(v) => match v {
            JsonVal::Num(n) => match n.ival {
                Some(u) => Ok(u),
                None => Err(PkgError::WrongType { field: String::from_str(name) }),
            },
            _ => Err(PkgError::WrongType { field: String::from_str(name) }),
        },
    }
}

fn get_opt_u64(fields: &Vec<(String, JsonVal)>, name: &str) -> (r: Result<Option<u64>, PkgError>)
    ensures
        match opt_u64(fields@, name@) {
            Ok(s) => r == Ok::<Option<u64>, PkgError>(s),
            Err(je) => r matches Err(e) && pkg_err_is(e, je),
        },
{
    match lookup(fields, name) {
        None => Ok(None),
        Some(v) => match v {
            JsonVal::Null => Ok(None),
            JsonVal::Num(n) => match n.uval {
                Some(u) => Ok(Some(u)),
                None => Err(PkgError::WrongType { field: String::from_str(name) }),
            },
            _ => Err(PkgError::WrongType { field: String::from_str(name) }),
        },
    }
}

fn get_req_pop(fields: &Vec<(String, JsonVal)>, name: &str) -> (r: Result<Popularity, PkgError>)
    ensures
        match req_pop(fields@, name@) {
            Ok(s) => r matches Ok(p) && p@ == s,
            Err(je) => r matches Err(e) && pkg_err_is(e, je),
        },
{
    match lookup(fields, name) {
        None => Err(PkgError::MissingField { field: String::from_str(name) }),
        Some(v) => match v {
            JsonVal::Num(n) => match n.fbits {
                Some(b) => Ok(Popularity { bits: b, repr: n.repr.clone() }),
                None => Err(PkgError::WrongType { field: String::from_str(name) }),
            },
            _ => Err(PkgError::WrongType { field: String::from_str(name) }),
        },
    }
}

fn get_list(fields: &Vec<(String, JsonVal)>, name: &str) -> (r: Result<Vec<String>, PkgError>)
    ensures
        match list_field(fields@, name@) {
            Ok(s) => r matches Ok(v) && v.deep_view() == s,
            Err(je) => r matches Err(e) && pkg_err_is(e, je),
        },
{
    match lookup(fields, name) {
        None => {
            let out: Vec<String> = Vec::new();
            proof {
                assert(out.deep_view() =~= Seq::<Seq<char>>::empty());
            }
            Ok(out)
        },
        Some(v) => match v {
            JsonVal::Arr(a) => {
                let mut out: Vec<String> = Vec::new();
                let n = a.len();
                let mut i: usize = 0;
                proof {
                    assert(a@.take(0) =~= Seq::<JsonVal>::empty());
                    assert(out.deep_view() =~= Seq::<Seq<char>>::empty());
                }
                while i < n
                    invariant
                        n == a@.len(),
                        0 <= i <= n,
                        list_field(fields@, name@) == str_items(a@, name@),
                        str_items(a@.take(i as int), name@) is Ok,
                        out.deep_view() == str_items(a@.take(i as int), name@)->Ok_0,
                    decreases n - i,
                {
                    proof {
                        assert(a@.take(i + 1).drop_last() =~= a@.take(i as int));
                        assert(a@.take(i + 1).last() == a@[i as int]);
                    }
                    match &a[i] {
                        JsonVal::Str(s) => {
                            let ghost prev = out.deep_view();
                            out.push(s.clone());
                            proof {
                                assert(out.deep_view() =~= prev.push(a@[i as int]->Str_0@));
                            }
                        },
                        _ => {
                            proof {
                                crate::package::lemma_str_items_err(a@, i as int, name@);
                            }
                            return Err(PkgError::WrongType { field: String::from_str(name) });
                        },
                    }
                    i = i + 1;
                }
                proof {
                    assert(a@.take(n as int) =~= a@);
                }
                Ok(out)
            },
            _ => Err(PkgError::WrongType { field: String::from_str(name) }),
        },
    }
}

/// A non-string element makes the whole array read fail with the field's
/// name.
proof fn lemma_str_items_err(vals: Seq<JsonVal>, i: int, name: Seq<char>)
    requires
        0 <= i < vals.len(),
        !(vals[i] is Str),
        str_items(vals.take(i), name) is Ok,
    ensures
        str_items(vals, name) == Err::<Seq<Seq<char>>, JErr>(JErr::Wrong(name)),
    decreases vals.len() - i,
{
    if i == vals.len() - 1 {
        assert(vals.take(i) =~= vals.drop_last());
        assert(vals.last() == vals[i]);
    } else {
        assert(vals.drop_last().take(i) =~= vals.take(i));
        lemma_str_items_err(vals.drop_last(), i, name);
    }
}

/// Read one result record out of its JSON object, or report the first
/// schema fault in it.
pub fn record_from_doc(d: &JsonVal) -> (r: Result<AurPkg, PkgError>)
    ensures
        match spec_record_of(*d) {
            Ok(v) => r matches Ok(pkg) && pkg@ == v,
            Err(je) => r matches Err(e) && pkg_err_is(e, je),
        },
{
    match d {
        JsonVal::Obj(fields) => {
            let name = match get_req_str(fields, "Name") {
                Ok(v) => v,
                Err(e) => {
                    return Err(e);
                },
            };
            let description = match get_req_str(fields, "Description") {
                Ok(v) => v,
                Err(e) => {
                    return Err(e);
                },
            };
            let maintainer = match get_opt_str(fields, "Maintainer") {
                Ok(v) => v,
                Err(e) => {
                    return Err(e);
                },
            };
            let pkgbase = match get_req_str(fields, "PackageBase") {
                Ok(v) => v,
                Err(e) => {
                    return Err(e);
                },
            };
            let upstream_url = match get_req_str(fields, "URL") {
                Ok(v) => v,
                Err(e) => {
                    return Err(e);
                },
            };
            let aur_urlpath = match get_req_str(fields, "URLPath") {
                Ok(v) => v,
                Err(e) => {
                    return Err(e);
                },
            };
            let version = match get_req_str(fields, "Version") {
                Ok(v) => v,
                Err(e) => {
                    return Err(e);
                },
            };
            let category_id = match get_dflt_u64(fields, "CategoryID") {
                Ok(v) => v,
                Err(e) => {
                    return Err(e);
                },
            };
            let package_id = match get_req_i64(fields, "ID") {
                Ok(v) => v,
                Err(e) => {
                    return Err(e);
                },
            };
            let pkgbaseid = match get_req_i64(fields, "PackageBaseID") {
                Ok(v) => v,
                Err(e) => {
                    return Err(e);
                },
            };
            let votes = match get_req_i64(fields, "NumVotes") {
                Ok(v) => v,
                Err(e) => {
                    return Err(e);
                },
            };
            let popularity = match get_req_pop(fields, "Popularity") {
                Ok(v) => v,
                Err(e) => {
                    return Err(e);
                },
            };
            let out_of_date = match get_opt_u64(fields, "OutOfDate") {
                Ok(v) => v,
                Err(e) => {
                    return Err(e);
                },
            };
            let submitted_s = match get_req_u64(fields, "FirstSubmitted") {
                Ok(v) => v,
                Err(e) => {
                    return Err(e);
                },
            };
            let modified_s = match get_req_u64(fields, "LastModified") {
                Ok(v) => v,
                Err(e) => {
                    return Err(e);
                },
            };
            let licenses = match get_list(fields, "License") {
                Ok(v) => v,
                Err(e) => {
                    return Err(e);
                },
            };
            let conflicts = match get_list(fields, "Conflicts") {
                Ok(v) => v,
                Err(e) => {
                    return Err(e);
                },
            };
            let depends = match get_list(fields, "Depends") {
                Ok(v) => v,
                Err(e) => {
                    return Err(e);
                },
            };
            let groups = match get_list(fields, "Groups") {
                Ok(v) => v,
                Err(e) => {
                    return Err(e);
                },
            };
            let makedepends = match get_list(fields, "MakeDepends") {
                Ok(v) => v,
                Err(e) => {
                    return Err(e);
                },
            };
            let optdepends = match get_list(fields, "OptDepends") {
                Ok(v) => v,
                Err(e) => {
                    return Err(e);
                },
            };
            let checkdepends = match get_list(fields, "CheckDepends") {
                Ok(v) => v,
                Err(e) => {
                    return Err(e);
                },
            };
            let provides = match get_list(fields, "Provides") {
                Ok(v) => v,
                Err(e) => {
                    return Err(e);
                },
            };
            let replaces = match get_list(fields, "Replaces") {
                Ok(v) => v,
                Err(e) => {
                    return Err(e);
                },
            };
            let keywords = match get_list(fields, "Keywords") {
                Ok(v) => v,
                Err(e) => {
                    return Err(e);
                },
            };
            let pkg = AurPkg {
                name,
                description,
                maintainer,
                pkgbase,
                upstream_url,
                aur_urlpath,
                version,
                category_id,
                package_id,
                pkgbaseid,
                votes,
                popularity,
                out_of_date,
                submitted_s,
                modified_s,
                licenses,
                conflicts,
                depends,
                groups,
                makedepends,
                optdepends,
                checkdepends,
                provides,
                replaces,
                keywords,
            };
            Ok(pkg)
        },
        _ => Err(PkgError::WrongType { field: String::from_str("results") }),
    }
}

/// Read a whole response document: check the envelope, then read every
/// record of `results`, in order.
pub fn packages_from_doc(doc: &JsonVal) -> (r: Result<Vec<AurPkg>, PkgError>)
    ensures
        match spec_packages_of(*doc) {
            Ok(vs) => r matches Ok(v) && v.deep_view() == vs,
            Err(je) => r matches Err(e) && pkg_err_is(e, je),
        },
{
    match doc {
        JsonVal::Obj(fields) => {
            match get_req_u64(fields, "version") {
                Ok(_) => (),
                Err(e) => {
                    return Err(e);
                },
            }
            match get_req_str(fields, "type") {
                Ok(_) => (),
                Err(e) => {
                    return Err(e);
                },
            }
            match get_req_u64(fields, "resultcount") {
                Ok(_) => (),
                Err(e) => {
                    return Err(e);
                },
            }
            match lookup(fields, "results") {
                None => Err(PkgError::MissingField { field: String::from_str("results") }),
                Some(v) => match v {
                    JsonVal::Arr(a) => {
                        let mut out: Vec<AurPkg> = Vec::new();
                        let n = a.len();
                        let mut i: usize = 0;
                        proof {
                            assert(a@.take(0) =~= Seq::<JsonVal>::empty());
                            assert(out.deep_view() =~= Seq::<AurPkgView>::empty());
                        }
                        while i < n
                            invariant
                                n == a@.len(),
                                0 <= i <= n,
                                spec_packages_of(*doc) == spec_records_of(a@),
                                spec_records_of(a@.take(i as int)) is Ok,
                                out.deep_view() == spec_records_of(a@.take(i as int))->Ok_0,
                            decreases n - i,
                        {
                            proof {
                                assert(a@.take(i + 1).drop_last() =~= a@.take(i as int));
                                assert(a@.take(i + 1).last() == a@[i as int]);
                            }
                            match record_from_doc(&a[i]) {
                                Ok(pkg) => {
                                    let ghost prev = out.deep_view();
                                    let ghost pv = pkg@;
                                    out.push(pkg);
                                    proof {
                                        assert(out.deep_view() =~= prev.push(pv));
                                    }
                                },
                                Err(e) => {
                                    proof {
                                        lemma_records_err(a@, i as int);
                                    }
                                    return Err(e);
                                },
                            }
                            i = i + 1;
                        }
                        proof {
                            assert(a@.take(n as int) =~= a@);
                        }
                        Ok(out)
                    },
                    _ => Err(PkgError::WrongType { field: String::from_str("results") }),
                },
            }
        },
        _ => Err(PkgError::WrongType { field: String::from_str("document") }),
    }
}

/// A faulty record makes the whole result read fail with that record's
/// fault.
proof fn lemma_records_err(vals: Seq<JsonVal>, i: int)
    requires
        0 <= i < vals.len(),
        spec_record_of(vals[i]) is Err,
        spec_records_of(vals.take(i)) is Ok,
    ensures
        spec_records_of(vals) == Err::<Seq<AurPkgView>, JErr>(spec_record_of(vals[i])->Err_0),
    decreases vals.len() - i,
{
    if i == vals.len() - 1 {
        assert(vals.take(i) =~= vals.drop_last());
        assert(vals.last() == vals[i]);
    } else {
        assert(vals.drop_last().take(i) =~= vals.take(i));
        lemma_records_err(vals.drop_last(), i);
    }
}


// ---------------------------------------------------------------------------
// Comparators
// ---------------------------------------------------------------------------

/// Order by name, lexicographically.
pub open spec fn spec_sort_name(a: AurPkgView, b: AurPkgView) -> core::cmp::Ordering {
    lex_cmp(a.name, b.name)
}

/// Order by maintainer; an absent maintainer sorts before any present one.
pub open spec fn spec_sort_maint(a: AurPkgView, b: AurPkgView) -> core::cmp::Ordering {
    match (a.maintainer, b.maintainer) {
        (None, None) => core::cmp::Ordering::Equal,
        (None, Some(_)) => core::cmp::Ordering::Less,
        (Some(_), None) => core::cmp::Ordering::Greater,
        (Some(x), Some(y)) => lex_cmp(x, y),
    }
}

/// Order two signed values.
pub open spec fn spec_i64_cmp(a: i64, b: i64) -> core::cmp::Ordering {
    if a < b {
        core::cmp::Ordering::Less
    } else if a > b {
        core::cmp::Ordering::Greater
    } else {
        core::cmp::Ordering::Equal
    }
}

/// Order two timestamps.
pub open spec fn spec_u64_cmp(a: u64, b: u64) -> core::cmp::Ordering {
    if a < b {
        core::cmp::Ordering::Less
    } else if a > b {
        core::cmp::Ordering::Greater
    } else {
        core::cmp::Ordering::Equal
    }
}

/// Order by the out-of-date marker; up-to-date sorts before any timestamp.
pub open spec fn spec_sort_ood(a: AurPkgView, b: AurPkgView) -> core::cmp::Ordering {
    match (a.out_of_date, b.out_of_date) {
        (None, None) => core::cmp::Ordering::Equal,
        (None, Some(_)) => core::cmp::Ordering::Less,
        (Some(_), None) => core::cmp::Ordering::Greater,
        (Some(x), Some(y)) => spec_u64_cmp(x, y),
    }
}

/// Whether `bits` hold a NaN: an all-ones exponent with a non-zero
/// significand.
pub open spec fn f64_is_nan(bits: u64) -> bool {
    (bits >> 52) & 0x7ff == 0x7ff && bits & 0xf_ffff_ffff_ffff != 0
}

/// The IEEE-754 partial order on the doubles behind two bit patterns:
/// `None` when either is a NaN; both zeros are equal; otherwise the sign
/// decides, then the magnitude bits, reversed for negative values.
pub open spec fn f64_bits_cmp(a: u64, b: u64) -> Option<core::cmp::Ordering> {
    if f64_is_nan(a) || f64_is_nan(b) {
        None
    } else {
        let maga = a & 0x7fff_ffff_ffff_ffff;
        let magb = b & 0x7fff_ffff_ffff_ffff;
        let nega = (a >> 63) == 1;
        let negb = (b >> 63) == 1;
        if maga == 0 && magb == 0 {
            Some(core::cmp::Ordering::Equal)
        } else if nega != negb {
            if nega {
                Some(core::cmp::Ordering::Less)
            } else {
                Some(core::cmp::Ordering::Greater)
            }
        } else if nega {
            Some(spec_u64_cmp(magb, maga))
        } else {
            Some(spec_u64_cmp(maga, magb))
        }
    }
}

/// Order by popularity; a pair that is not comparable (a NaN) sorts as
/// less-than.
pub open spec fn spec_sort_popularity(a: AurPkgView, b: AurPkgView) -> core::cmp::Ordering {
    match f64_bits_cmp(a.popularity.bits, b.popularity.bits) {
        Some(o) => o,
        None => core::cmp::Ordering::Less,
    }
}

/// Order by version under the package-manager version convention.
pub open spec fn spec_sort_ver(a: AurPkgView, b: AurPkgView) -> core::cmp::Ordering {
    vercmp(a.version, b.version)
}

/// The comparator a sort key stands for.
pub open spec fn spec_compare_by(key: SortKey, a: AurPkgView, b: AurPkgView) -> core::cmp::Ordering {
    match key {
        SortKey::Name => spec_sort_name(a, b),
        SortKey::Version => spec_sort_ver(a, b),
        SortKey::Maintainer => spec_sort_maint(a, b),
        SortKey::Votes => spec_i64_cmp(a.votes, b.votes),
        SortKey::Popularity => spec_sort_popularity(a, b),
        SortKey::OutOfDate => spec_sort_ood(a, b),
        SortKey::LastModified => spec_u64_cmp(a.modified_s, b.modified_s),
        SortKey::FirstSubmitted => spec_u64_cmp(a.submitted_s, b.submitted_s),
    }
}

/// Compare by name.
pub fn sort_name(pkg1: &AurPkg, pkg2: &AurPkg) -> (r: core::cmp::Ordering)
    ensures
        r == spec_sort_name(pkg1@, pkg2@),
{
    str_cmp(pkg1.name.as_str(), pkg2.name.as_str())
}

/// Compare by maintainer.
pub fn sort_cmpmaint(pkg1: &AurPkg, pkg2: &AurPkg) -> (r: core::cmp::Ordering)
    ensures
        r == spec_sort_maint(pkg1@, pkg2@),
{
    match (&pkg1.maintainer, &pkg2.maintainer) {
        (None, None) => core::cmp::Ordering::Equal,
        (None, Some(_)) => core::cmp::Ordering::Less,
        (Some(_), None) => core::cmp::Ordering::Greater,
        (Some(x), Some(y)) => str_cmp(x.as_str(), y.as_str()),
    }
}

/// Compare by vote count.
pub fn sort_cmpvotes(pkg1: &AurPkg, pkg2: &AurPkg) -> (r: core::cmp::Ordering)
    ensures
        r == spec_i64_cmp(pkg1@.votes, pkg2@.votes),
{
    if pkg1.votes < pkg2.votes {
        core::cmp::Ordering::Less
    } else if pkg1.votes > pkg2.votes {
        core::cmp::Ordering::Greater
    } else {
        core::cmp::Ordering::Equal
    }
}

fn u64_cmp(a: u64, b: u64) -> (r: core::cmp::Ordering)
    ensures
        r == spec_u64_cmp(a, b),
{
    if a < b {
        core::cmp::Ordering::Less
    } else if a > b {
        core::cmp::Ordering::Greater
    } else {
        core::cmp::Ordering::Equal
    }
}

/// Compare by popularity, over the stored bit patterns.
pub fn sort_cmppopularity(pkg1: &AurPkg, pkg2: &AurPkg) -> (r: core::cmp::Ordering)
    ensures
        r == spec_sort_popularity(pkg1@, pkg2@),
{
    let a = pkg1.popularity.bits;
    let b = pkg2.popularity.bits;
    let nan_a = (a >> 52) & 0x7ff == 0x7ff && a & 0xf_ffff_ffff_ffff != 0;
    let nan_b = (b >> 52) & 0x7ff == 0x7ff && b & 0xf_ffff_ffff_ffff != 0;
    if nan_a || nan_b {
        return core::cmp::Ordering::Less;
    }
    let maga = a & 0x7fff_ffff_ffff_ffff;
    let magb = b & 0x7fff_ffff_ffff_ffff;
    let nega = (a >> 63) == 1;
    let negb = (b >> 63) == 1;
    if maga == 0 && magb == 0 {
        core::cmp::Ordering::Equal
    } else if nega != negb {
        if nega {
            core::cmp::Ordering::Less
        } else {
            core::cmp::Ordering::Greater
        }
    } else if nega {
        u64_cmp(magb, maga)
    } else {
        u64_cmp(maga, magb)
    }
}

/// Compare by the out-of-date marker.
pub fn sort_cmpood(pkg1: &AurPkg, pkg2: &AurPkg) -> (r: core::cmp::Ordering)
    ensures
        r == spec_sort_ood(pkg1@, pkg2@),
{
    match (&pkg1.out_of_date, &pkg2.out_of_date) {
        (None, None) => core::cmp::Ordering::Equal,
        (None, Some(_)) => core::cmp::Ordering::Less,
        (Some(_), None) => core::cmp::Ordering::Greater,
        (Some(x), Some(y)) => u64_cmp(*x, *y),
    }
}

/// Compare by the last-modified timestamp.
pub fn sort_cmplastmod(pkg1: &AurPkg, pkg2: &AurPkg) -> (r: core::cmp::Ordering)
    ensures
        r == spec_u64_cmp(pkg1@.modified_s, pkg2@.modified_s),
{
    u64_cmp(pkg1.modified_s, pkg2.modified_s)
}

/// Compare by the first-submitted timestamp.
pub fn sort_cmpfirstsub(pkg1: &AurPkg, pkg2: &AurPkg) -> (r: core::cmp::Ordering)
    ensures
        r == spec_u64_cmp(pkg1@.submitted_s, pkg2@.submitted_s),
{
    u64_cmp(pkg1.submitted_s, pkg2.submitted_s)
}

/// Compare by version.
pub fn sort_cmpver(pkg1: &AurPkg, pkg2: &AurPkg) -> (r: core::cmp::Ordering)
    ensures
        r == spec_sort_ver(pkg1@, pkg2@),
{
    vercmp_str(pkg1.version.as_str(), pkg2.version.as_str())
}

/// Compare by the comparator `key` names.
pub fn compare_by(key: SortKey, pkg1: &AurPkg, pkg2: &AurPkg) -> (r: core::cmp::Ordering)
    ensures
        r == spec_compare_by(key, pkg1@, pkg2@),
{
    match key {
        SortKey::Name => sort_name(pkg1, pkg2),
        SortKey::Version => sort_cmpver(pkg1, pkg2),
        SortKey::Maintainer => sort_cmpmaint(pkg1, pkg2),
        SortKey::Votes => sort_cmpvotes(pkg1, pkg2),
        SortKey::Popularity => sort_cmppopularity(pkg1, pkg2),
        SortKey::OutOfDate => sort_cmpood(pkg1, pkg2),
        SortKey::LastModified => sort_cmplastmod(pkg1, pkg2),
        SortKey::FirstSubmitted => sort_cmpfirstsub(pkg1, pkg2),
    }
}

/// Every comparator flips with its operands, so reversing the direction is
/// exactly reversing the comparator's sign.  Popularity scores must not be
/// NaN: a NaN compares less-than in both directions, as the incomparable
/// case demands.
pub proof fn lemma_compare_by_flip(key: SortKey, a: AurPkgView, b: AurPkgView)
    requires
        key is Popularity ==> !f64_is_nan(a.popularity.bits) && !f64_is_nan(b.popularity.bits),
    ensures
        spec_compare_by(key, b, a) == (match spec_compare_by(key, a, b) {
            core::cmp::Ordering::Less => core::cmp::Ordering::Greater,
            core::cmp::Ordering::Equal => core::cmp::Ordering::Equal,
            core::cmp::Ordering::Greater => core::cmp::Ordering::Less,
        }),
{
    match key {
        SortKey::Name => lemma_lex_cmp_flip(a.name, b.name),
        SortKey::Version => lemma_vercmp_antisym(a.version, b.version),
        SortKey::Maintainer => {
            match (a.maintainer, b.maintainer) {
                (Some(x), Some(y)) => lemma_lex_cmp_flip(x, y),
                _ => (),
            }
        },
        _ => (),
    }
}

// ---------------------------------------------------------------------------
// Writing records back out
// ---------------------------------------------------------------------------

/// The first field with a key wins the lookup.
proof fn lemma_obj_get_hit(fields: Seq<(String, JsonVal)>, k: int, name: Seq<char>)
    requires
        0 <= k < fields.len(),
        fields[k].0@ == name,
        forall|j: int| 0 <= j < k ==> (#[trigger] fields[j]).0@ != name,
    ensures
        obj_get(fields, name) == Some(fields[k].1),
    decreases k,
{
    if k > 0 {
        assert(forall|j: int| 0 <= j < fields.len() - 1 ==> fields.drop_first()[j] == fields[j
            + 1]);
        lemma_obj_get_hit(fields.drop_first(), k - 1, name);
    }
}

/// A number holding a non-negative integer, readable both ways.
fn num_u64(v: u64) -> (r: JsonVal)
    ensures
        r matches JsonVal::Num(n) && n.uval == Some(v) && (v <= i64::MAX ==> n.ival == Some(
            v as i64,
        )),
{
    let ival: Option<i64> = if v <= 0x7fff_ffff_ffff_ffff {
        Some(v as i64)
    } else {
        None
    };
    JsonVal::Num(
        JsonNum { uval: Some(v), ival, fbits: None, repr: crate::strutil::u64_to_string(v) },
    )
}

/// A number holding a signed integer.
fn num_i64(v: i64) -> (r: JsonVal)
    ensures
        r matches JsonVal::Num(n) && n.ival == Some(v) && (v >= 0 ==> n.uval == Some(v as u64)),
{
    let uval: Option<u64> = if v >= 0 {
        Some(v as u64)
    } else {
        None
    };
    JsonVal::Num(
        JsonNum { uval, ival: Some(v), fbits: None, repr: crate::strutil::i64_to_string(v) },
    )
}

/// A number holding a popularity score.
fn num_pop(p: &Popularity) -> (r: JsonVal)
    ensures
        r matches JsonVal::Num(n) && n.fbits == Some(p.bits) && n.repr@ == p.repr@,
{
    JsonVal::Num(
        JsonNum { uval: None, ival: None, fbits: Some(p.bits), repr: p.repr.clone() },
    )
}

/// An array of strings.
fn list_val(v: &Vec<String>) -> (r: JsonVal)
    ensures
        r matches JsonVal::Arr(a) && forall|name: Seq<char>|
            str_items(a@, name) == Ok::<Seq<Seq<char>>, JErr>(v.deep_view()),
{
    let mut a: Vec<JsonVal> = Vec::new();
    let n = v.len();
    let mut i: usize = 0;
    proof {
        assert forall|name: Seq<char>|
            str_items(a@, name) == Ok::<Seq<Seq<char>>, JErr>(v.deep_view().take(0)) by {
            assert(a@.len() == 0);
            assert(v.deep_view().take(0) =~= Seq::<Seq<char>>::empty());
        }
    }
    while i < n
        invariant
            n == v@.len(),
            v.deep_view().len() == n,
            0 <= i <= n,
            a@.len() == i,
            forall|name: Seq<char>| #[trigger]
                str_items(a@, name) == Ok::<Seq<Seq<char>>, JErr>(v.deep_view().take(i as int)),
        decreases n - i,
    {
        let ghost prev = a@;
        a.push(JsonVal::Str(v[i].clone()));
        proof {
            assert(a@.drop_last() =~= prev);
            assert(a@.last() == JsonVal::Str(v@[i as int]));
            assert(v.deep_view()[i as int] == v@[i as int]@);
            assert forall|name: Seq<char>|
                str_items(a@, name) == Ok::<Seq<Seq<char>>, JErr>(
                    v.deep_view().take(i + 1),
                ) by {
                assert(str_items(prev, name) == Ok::<Seq<Seq<char>>, JErr>(
                    v.deep_view().take(i as int),
                ));
                assert(v.deep_view().take(i + 1) =~= v.deep_view().take(i as int).push(
                    v.deep_view()[i as int],
                ));
            }
        }
        i = i + 1;
    }
    proof {
        assert(v.deep_view().take(n as int) =~= v.deep_view());
    }
    JsonVal::Arr(a)
}

/// Write one record back out as a JSON object.  Reading the object back
/// reproduces every field: the record round-trips through its document
/// form.
#[verifier::rlimit(100)]
#[verifier::spinoff_prover]
pub fn record_to_doc(pkg: &AurPkg) -> (r: JsonVal)
    ensures
        spec_record_of(r) == Ok::<AurPkgView, JErr>(pkg@),
{
    let maint: JsonVal = match &pkg.maintainer {
        Some(m) => JsonVal::Str(m.clone()),
        None => JsonVal::Null,
    };
    let ood: JsonVal = match &pkg.out_of_date {
        Some(t) => num_u64(*t),
        None => JsonVal::Null,
    };
    let mut fields: Vec<(String, JsonVal)> = Vec::new();
    let v0 = num_i64(pkg.package_id);
    let ghost g0 = v0;
    fields.push((String::from_str("ID"), v0));
    let v1 = JsonVal::Str(pkg.name.clone());
    let ghost g1 = v1;
    fields.push((String::from_str("Name"), v1));
    let v2 = num_i64(pkg.pkgbaseid);
    let ghost g2 = v2;
    fields.push((String::from_str("PackageBaseID"), v2));
    let v3 = JsonVal::Str(pkg.pkgbase.clone());
    let ghost g3 = v3;
    fields.push((String::from_str("PackageBase"), v3));
    let v4 = JsonVal::Str(pkg.version.clone());
    let ghost g4 = v4;
    fields.push((String::from_str("Version"), v4));
    let v5 = JsonVal::Str(pkg.description.clone());
    let ghost g5 = v5;
    fields.push((String::from_str("Description"), v5));
    let v6 = JsonVal::Str(pkg.upstream_url.clone());
    let ghost g6 = v6;
    fields.push((String::from_str("URL"), v6));
    let v7 = JsonVal::Str(pkg.aur_urlpath.clone());
    let ghost g7 = v7;
    fields.push((String::from_str("URLPath"), v7));
    let v8 = maint;
    let ghost g8 = v8;
    fields.push((String::from_str("Maintainer"), v8));
    let v9 = num_u64(pkg.category_id);
    let ghost g9 = v9;
    fields.push((String::from_str("CategoryID"), v9));
    let v10 = num_i64(pkg.votes);
    let ghost g10 = v10;
    fields.push((String::from_str("NumVotes"), v10));
    let v11 = num_pop(&pkg.popularity);
    let ghost g11 = v11;
    fields.push((String::from_str("Popularity"), v11));
    let v12 = ood;
    let ghost g12 = v12;
    fields.push((String::from_str("OutOfDate"), v12));
    let v13 = num_u64(pkg.submitted_s);
    let ghost g13 = v13;
    fields.push((String::from_str("FirstSubmitted"), v13));
    let v14 = num_u64(pkg.modified_s);
    let ghost g14 = v14;
    fields.push((String::from_str("LastModified"), v14));
    let v15 = list_val(&pkg.licenses);
    let ghost g15 = v15;
    fields.push((String::from_str("License"), v15));
    let v16 = list_val(&pkg.conflicts);
    let ghost g16 = v16;
    fields.push((String::from_str("Conflicts"), v16));
    let v17 = list_val(&pkg.depends);
    let ghost g17 = v17;
    fields.push((String::from_str("Depends"), v17));
    let v18 = list_val(&pkg.groups);
    let ghost g18 = v18;
    fields.push((String::from_str("Groups"), v18));
    let v19 = list_val(&pkg.makedepends);
    let ghost g19 = v19;
    fields.push((String::from_str("MakeDepends"), v19));
    let v20 = list_val(&pkg.optdepends);
    let ghost g20 = v20;
    fields.push((String::from_str("OptDepends"), v20));
    let v21 = list_val(&pkg.checkdepends);
    let ghost g21 = v21;
    fields.push((String::from_str("CheckDepends"), v21));
    let v22 = list_val(&pkg.provides);
    let ghost g22 = v22;
    fields.push((String::from_str("Provides"), v22));
    let v23 = list_val(&pkg.replaces);
    let ghost g23 = v23;
    fields.push((String::from_str("Replaces"), v23));
    let v24 = list_val(&pkg.keywords);
    let ghost g24 = v24;
    fields.push((String::from_str("Keywords"), v24));
    proof {
        reveal_strlit("ID");
        reveal_strlit("Name");
        reveal_strlit("PackageBaseID");
        reveal_strlit("PackageBase");
        reveal_strlit("Version");
        reveal_strlit("Description");
        reveal_strlit("URL");
        reveal_strlit("URLPath");
        reveal_strlit("Maintainer");
        reveal_strlit("CategoryID");
        reveal_strlit("NumVotes");
        reveal_strlit("Popularity");
        reveal_strlit("OutOfDate");
        reveal_strlit("FirstSubmitted");
        reveal_strlit("LastModified");
        reveal_strlit("License");
        reveal_strlit("Conflicts");
        reveal_strlit("Depends");
        reveal_strlit("Groups");
        reveal_strlit("MakeDepends");
        reveal_strlit("OptDepends");
        reveal_strlit("CheckDepends");
        reveal_strlit("Provides");
        reveal_strlit("Replaces");
        reveal_strlit("Keywords");
        assert(fields@.len() == 25);
        assert(fields@[0].0@ == "ID"@ && fields@[0].1 == g0);
        assert(fields@[1].0@ == "Name"@ && fields@[1].1 == g1);
        assert(fields@[2].0@ == "PackageBaseID"@ && fields@[2].1 == g2);
        assert(fields@[3].0@ == "PackageBase"@ && fields@[3].1 == g3);
        assert(fields@[4].0@ == "Version"@ && fields@[4].1 == g4);
        assert(fields@[5].0@ == "Description"@ && fields@[5].1 == g5);
        assert(fields@[6].0@ == "URL"@ && fields@[6].1 == g6);
        assert(fields@[7].0@ == "URLPath"@ && fields@[7].1 == g7);
        assert(fields@[8].0@ == "Maintainer"@ && fields@[8].1 == g8);
        assert(fields@[9].0@ == "CategoryID"@ && fields@[9].1 == g9);
        assert(fields@[10].0@ == "NumVotes"@ && fields@[10].1 == g10);
        assert(fields@[11].0@ == "Popularity"@ && fields@[11].1 == g11);
        assert(fields@[12].0@ == "OutOfDate"@ && fields@[12].1 == g12);
        assert(fields@[13].0@ == "FirstSubmitted"@ && fields@[13].1 == g13);
        assert(fields@[14].0@ == "LastModified"@ && fields@[14].1 == g14);
        assert(fields@[15].0@ == "License"@ && fields@[15].1 == g15);
        assert(fields@[16].0@ == "Conflicts"@ && fields@[16].1 == g16);
        assert(fields@[17].0@ == "Depends"@ && fields@[17].1 == g17);
        assert(fields@[18].0@ == "Groups"@ && fields@[18].1 == g18);
        assert(fields@[19].0@ == "MakeDepends"@ && fields@[19].1 == g19);
        assert(fields@[20].0@ == "OptDepends"@ && fields@[20].1 == g20);
        assert(fields@[21].0@ == "CheckDepends"@ && fields@[21].1 == g21);
        assert(fields@[22].0@ == "Provides"@ && fields@[22].1 == g22);
        assert(fields@[23].0@ == "Replaces"@ && fields@[23].1 == g23);
        assert(fields@[24].0@ == "Keywords"@ && fields@[24].1 == g24);
        assert("PackageBase"@[0] != "Description"@[0]);
        assert("Version"@[0] != "URLPath"@[0]);
        assert("Maintainer"@[0] != "CategoryID"@[0]);
        assert("Maintainer"@[0] != "Popularity"@[0]);
        assert("CategoryID"@[0] != "Popularity"@[0]);
        assert("Version"@[0] != "License"@[0]);
        assert("URLPath"@[0] != "License"@[0]);
        assert("OutOfDate"@[0] != "Conflicts"@[0]);
        assert("Version"@[0] != "Depends"@[0]);
        assert("URLPath"@[0] != "Depends"@[0]);
        assert("License"@[0] != "Depends"@[0]);
        assert("PackageBase"@[0] != "MakeDepends"@[0]);
        assert("Description"@[0] != "MakeDepends"@[0]);
        assert("Maintainer"@[0] != "OptDepends"@[0]);
        assert("CategoryID"@[0] != "OptDepends"@[0]);
        assert("Popularity"@[0] != "OptDepends"@[0]);
        assert("LastModified"@[0] != "CheckDepends"@[0]);
        assert("NumVotes"@[0] != "Provides"@[0]);
        assert("NumVotes"@[0] != "Replaces"@[0]);
        assert("Provides"@[0] != "Replaces"@[0]);
        assert("NumVotes"@[0] != "Keywords"@[0]);
        assert("Provides"@[0] != "Keywords"@[0]);
        assert("Replaces"@[0] != "Keywords"@[0]);
        assert forall|j: int| 0 <= j < 0 implies (#[trigger] fields@[j]).0@ != "ID"@ by {}
        lemma_obj_get_hit(fields@, 0, "ID"@);
        assert(fields@[0].0@ != "Name"@);
        assert forall|j: int| 0 <= j < 1 implies (#[trigger] fields@[j]).0@ != "Name"@ by {}
        lemma_obj_get_hit(fields@, 1, "Name"@);
        assert(fields@[0].0@ != "PackageBaseID"@ && fields@[1].0@ != "PackageBaseID"@);
        assert forall|j: int| 0 <= j < 2 implies (#[trigger] fields@[j]).0@ != "PackageBaseID"@ by {}
        lemma_obj_get_hit(fields@, 2, "PackageBaseID"@);
        assert(fields@[0].0@ != "PackageBase"@ && fields@[1].0@ != "PackageBase"@ && fields@[2].0@ != "PackageBase"@);
        assert forall|j: int| 0 <= j < 3 implies (#[trigger] fields@[j]).0@ != "PackageBase"@ by {}
        lemma_obj_get_hit(fields@, 3, "PackageBase"@);
        assert(fields@[0].0@ != "Version"@ && fields@[1].0@ != "Version"@ && fields@[2].0@ != "Version"@ && fields@[3].0@ != "Version"@);
        assert forall|j: int| 0 <= j < 4 implies (#[trigger] fields@[j]).0@ != "Version"@ by {}
        lemma_obj_get_hit(fields@, 4, "Version"@);
        assert(fields@[0].0@ != "Description"@ && fields@[1].0@ != "Description"@ && fields@[2].0@ != "Description"@ && fields@[3].0@ != "Description"@ && fields@[4].0@ != "Description"@);
        assert forall|j: int| 0 <= j < 5 implies (#[trigger] fields@[j]).0@ != "Description"@ by {}
        lemma_obj_get_hit(fields@, 5, "Description"@);
        assert(fields@[0].0@ != "URL"@ && fields@[1].0@ != "URL"@ && fields@[2].0@ != "URL"@ && fields@[3].0@ != "URL"@ && fields@[4].0@ != "URL"@ && fields@[5].0@ != "URL"@);
        assert forall|j: int| 0 <= j < 6 implies (#[trigger] fields@[j]).0@ != "URL"@ by {}
        lemma_obj_get_hit(fields@, 6, "URL"@);
        assert(fields@[0].0@ != "URLPath"@ && fields@[1].0@ != "URLPath"@ && fields@[2].0@ != "URLPath"@ && fields@[3].0@ != "URLPath"@ && fields@[4].0@ != "URLPath"@ && fields@[5].0@ != "URLPath"@ && fields@[6].0@ != "URLPath"@);
        assert forall|j: int| 0 <= j < 7 implies (#[trigger] fields@[j]).0@ != "URLPath"@ by {}
        lemma_obj_get_hit(fields@, 7, "URLPath"@);
        assert(fields@[0].0@ != "Maintainer"@ && fields@[1].0@ != "Maintainer"@ && fields@[2].0@ != "Maintainer"@ && fields@[3].0@ != "Maintainer"@ && fields@[4].0@ != "Maintainer"@ && fields@[5].0@ != "Maintainer"@ && fields@[6].0@ != "Maintainer"@ && fields@[7].0@ != "Maintainer"@);
        assert forall|j: int| 0 <= j < 8 implies (#[trigger] fields@[j]).0@ != "Maintainer"@ by {}
        lemma_obj_get_hit(fields@, 8, "Maintainer"@);
        assert(fields@[0].0@ != "CategoryID"@ && fields@[1].0@ != "CategoryID"@ && fields@[2].0@ != "CategoryID"@ && fields@[3].0@ != "CategoryID"@ && fields@[4].0@ != "CategoryID"@ && fields@[5].0@ != "CategoryID"@ && fields@[6].0@ != "CategoryID"@ && fields@[7].0@ != "CategoryID"@ && fields@[8].0@ != "CategoryID"@);
        assert forall|j: int| 0 <= j < 9 implies (#[trigger] fields@[j]).0@ != "CategoryID"@ by {}
        lemma_obj_get_hit(fields@, 9, "CategoryID"@);
        assert(fields@[0].0@ != "NumVotes"@ && fields@[1].0@ != "NumVotes"@ && fields@[2].0@ != "NumVotes"@ && fields@[3].0@ != "NumVotes"@ && fields@[4].0@ != "NumVotes"@ && fields@[5].0@ != "NumVotes"@ && fields@[6].0@ != "NumVotes"@ && fields@[7].0@ != "NumVotes"@ && fields@[8].0@ != "NumVotes"@ && fields@[9].0@ != "NumVotes"@);
        assert forall|j: int| 0 <= j < 10 implies (#[trigger] fields@[j]).0@ != "NumVotes"@ by {}
        lemma_obj_get_hit(fields@, 10, "NumVotes"@);
        assert(fields@[0].0@ != "Popularity"@ && fields@[1].0@ != "Popularity"@ && fields@[2].0@ != "Popularity"@ && fields@[3].0@ != "Popularity"@ && fields@[4].0@ != "Popularity"@ && fields@[5].0@ != "Popularity"@ && fields@[6].0@ != "Popularity"@ && fields@[7].0@ != "Popularity"@ && fields@[8].0@ != "Popularity"@ && fields@[9].0@ != "Popularity"@ && fields@[10].0@ != "Popularity"@);
        assert forall|j: int| 0 <= j < 11 implies (#[trigger] fields@[j]).0@ != "Popularity"@ by {}
        lemma_obj_get_hit(fields@, 11, "Popularity"@);
        assert(fields@[0].0@ != "OutOfDate"@ && fields@[1].0@ != "OutOfDate"@ && fields@[2].0@ != "OutOfDate"@ && fields@[3].0@ != "OutOfDate"@ && fields@[4].0@ != "OutOfDate"@ && fields@[5].0@ != "OutOfDate"@ && fields@[6].0@ != "OutOfDate"@ && fields@[7].0@ != "OutOfDate"@ && fields@[8].0@ != "OutOfDate"@ && fields@[9].0@ != "OutOfDate"@ && fields@[10].0@ != "OutOfDate"@ && fields@[11].0@ != "OutOfDate"@);
        assert forall|j: int| 0 <= j < 12 implies (#[trigger] fields@[j]).0@ != "OutOfDate"@ by {}
        lemma_obj_get_hit(fields@, 12, "OutOfDate"@);
        assert(fields@[0].0@ != "FirstSubmitted"@ && fields@[1].0@ != "FirstSubmitted"@ && fields@[2].0@ != "FirstSubmitted"@ && fields@[3].0@ != "FirstSubmitted"@ && fields@[4].0@ != "FirstSubmitted"@ && fields@[5].0@ != "FirstSubmitted"@ && fields@[6].0@ != "FirstSubmitted"@ && fields@[7].0@ != "FirstSubmitted"@ && fields@[8].0@ != "FirstSubmitted"@ && fields@[9].0@ != "FirstSubmitted"@ && fields@[10].0@ != "FirstSubmitted"@ && fields@[11].0@ != "FirstSubmitted"@ && fields@[12].0@ != "FirstSubmitted"@);
        assert forall|j: int| 0 <= j < 13 implies (#[trigger] fields@[j]).0@ != "FirstSubmitted"@ by {}
        lemma_obj_get_hit(fields@, 13, "FirstSubmitted"@);
        assert(fields@[0].0@ != "LastModified"@ && fields@[1].0@ != "LastModified"@ && fields@[2].0@ != "LastModified"@ && fields@[3].0@ != "LastModified"@ && fields@[4].0@ != "LastModified"@ && fields@[5].0@ != "LastModified"@ && fields@[6].0@ != "LastModified"@ && fields@[7].0@ != "LastModified"@ && fields@[8].0@ != "LastModified"@ && fields@[9].0@ != "LastModified"@ && fields@[10].0@ != "LastModified"@ && fields@[11].0@ != "LastModified"@ && fields@[12].0@ != "LastModified"@ && fields@[13].0@ != "LastModified"@);
        assert forall|j: int| 0 <= j < 14 implies (#[trigger] fields@[j]).0@ != "LastModified"@ by {}
        lemma_obj_get_hit(fields@, 14, "LastModified"@);
        assert(fields@[0].0@ != "License"@ && fields@[1].0@ != "License"@ && fields@[2].0@ != "License"@ && fields@[3].0@ != "License"@ && fields@[4].0@ != "License"@ && fields@[5].0@ != "License"@ && fields@[6].0@ != "License"@ && fields@[7].0@ != "License"@ && fields@[8].0@ != "License"@ && fields@[9].0@ != "License"@ && fields@[10].0@ != "License"@ && fields@[11].0@ != "License"@ && fields@[12].0@ != "License"@ && fields@[13].0@ != "License"@ && fields@[14].0@ != "License"@);
        assert forall|j: int| 0 <= j < 15 implies (#[trigger] fields@[j]).0@ != "License"@ by {}
        lemma_obj_get_hit(fields@, 15, "License"@);
        assert(fields@[0].0@ != "Conflicts"@ && fields@[1].0@ != "Conflicts"@ && fields@[2].0@ != "Conflicts"@ && fields@[3].0@ != "Conflicts"@ && fields@[4].0@ != "Conflicts"@ && fields@[5].0@ != "Conflicts"@ && fields@[6].0@ != "Conflicts"@ && fields@[7].0@ != "Conflicts"@ && fields@[8].0@ != "Conflicts"@ && fields@[9].0@ != "Conflicts"@ && fields@[10].0@ != "Conflicts"@ && fields@[11].0@ != "Conflicts"@ && fields@[12].0@ != "Conflicts"@ && fields@[13].0@ != "Conflicts"@ && fields@[14].0@ != "Conflicts"@ && fields@[15].0@ != "Conflicts"@);
        assert forall|j: int| 0 <= j < 16 implies (#[trigger] fields@[j]).0@ != "Conflicts"@ by {}
        lemma_obj_get_hit(fields@, 16, "Conflicts"@);
        assert(fields@[0].0@ != "Depends"@ && fields@[1].0@ != "Depends"@ && fields@[2].0@ != "Depends"@ && fields@[3].0@ != "Depends"@ && fields@[4].0@ != "Depends"@ && fields@[5].0@ != "Depends"@ && fields@[6].0@ != "Depends"@ && fields@[7].0@ != "Depends"@ && fields@[8].0@ != "Depends"@ && fields@[9].0@ != "Depends"@ && fields@[10].0@ != "Depends"@ && fields@[11].0@ != "Depends"@ && fields@[12].0@ != "Depends"@ && fields@[13].0@ != "Depends"@ && fields@[14].0@ != "Depends"@ && fields@[15].0@ != "Depends"@ && fields@[16].0@ != "Depends"@);
        assert forall|j: int| 0 <= j < 17 implies (#[trigger] fields@[j]).0@ != "Depends"@ by {}
        lemma_obj_get_hit(fields@, 17, "Depends"@);
        assert(fields@[0].0@ != "Groups"@ && fields@[1].0@ != "Groups"@ && fields@[2].0@ != "Groups"@ && fields@[3].0@ != "Groups"@ && fields@[4].0@ != "Groups"@ && fields@[5].0@ != "Groups"@ && fields@[6].0@ != "Groups"@ && fields@[7].0@ != "Groups"@ && fields@[8].0@ != "Groups"@ && fields@[9].0@ != "Groups"@ && fields@[10].0@ != "Groups"@ && fields@[11].0@ != "Groups"@ && fields@[12].0@ != "Groups"@ && fields@[13].0@ != "Groups"@ && fields@[14].0@ != "Groups"@ && fields@[15].0@ != "Groups"@ && fields@[16].0@ != "Groups"@ && fields@[17].0@ != "Groups"@);
        assert forall|j: int| 0 <= j < 18 implies (#[trigger] fields@[j]).0@ != "Groups"@ by {}
        lemma_obj_get_hit(fields@, 18, "Groups"@);
        assert(fields@[0].0@ != "MakeDepends"@ && fields@[1].0@ != "MakeDepends"@ && fields@[2].0@ != "MakeDepends"@ && fields@[3].0@ != "MakeDepends"@ && fields@[4].0@ != "MakeDepends"@ && fields@[5].0@ != "MakeDepends"@ && fields@[6].0@ != "MakeDepends"@ && fields@[7].0@ != "MakeDepends"@ && fields@[8].0@ != "MakeDepends"@ && fields@[9].0@ != "MakeDepends"@ && fields@[10].0@ != "MakeDepends"@ && fields@[11].0@ != "MakeDepends"@ && fields@[12].0@ != "MakeDepends"@ && fields@[13].0@ != "MakeDepends"@ && fields@[14].0@ != "MakeDepends"@ && fields@[15].0@ != "MakeDepends"@ && fields@[16].0@ != "MakeDepends"@ && fields@[17].0@ != "MakeDepends"@ && fields@[18].0@ != "MakeDepends"@);
        assert forall|j: int| 0 <= j < 19 implies (#[trigger] fields@[j]).0@ != "MakeDepends"@ by {}
        lemma_obj_get_hit(fields@, 19, "MakeDepends"@);
        assert(fields@[0].0@ != "OptDepends"@ && fields@[1].0@ != "OptDepends"@ && fields@[2].0@ != "OptDepends"@ && fields@[3].0@ != "OptDepends"@ && fields@[4].0@ != "OptDepends"@ && fields@[5].0@ != "OptDepends"@ && fields@[6].0@ != "OptDepends"@ && fields@[7].0@ != "OptDepends"@ && fields@[8].0@ != "OptDepends"@ && fields@[9].0@ != "OptDepends"@ && fields@[10].0@ != "OptDepends"@ && fields@[11].0@ != "OptDepends"@ && fields@[12].0@ != "OptDepends"@ && fields@[13].0@ != "OptDepends"@ && fields@[14].0@ != "OptDepends"@ && fields@[15].0@ != "OptDepends"@ && fields@[16].0@ != "OptDepends"@ && fields@[17].0@ != "OptDepends"@ && fields@[18].0@ != "OptDepends"@ && fields@[19].0@ != "OptDepends"@);
        assert forall|j: int| 0 <= j < 20 implies (#[trigger] fields@[j]).0@ != "OptDepends"@ by {}
        lemma_obj_get_hit(fields@, 20, "OptDepends"@);
        assert(fields@[0].0@ != "CheckDepends"@ && fields@[1].0@ != "CheckDepends"@ && fields@[2].0@ != "CheckDepends"@ && fields@[3].0@ != "CheckDepends"@ && fields@[4].0@ != "CheckDepends"@ && fields@[5].0@ != "CheckDepends"@ && fields@[6].0@ != "CheckDepends"@ && fields@[7].0@ != "CheckDepends"@ && fields@[8].0@ != "CheckDepends"@ && fields@[9].0@ != "CheckDepends"@ && fields@[10].0@ != "CheckDepends"@ && fields@[11].0@ != "CheckDepends"@ && fields@[12].0@ != "CheckDepends"@ && fields@[13].0@ != "CheckDepends"@ && fields@[14].0@ != "CheckDepends"@ && fields@[15].0@ != "CheckDepends"@ && fields@[16].0@ != "CheckDepends"@ && fields@[17].0@ != "CheckDepends"@ && fields@[18].0@ != "CheckDepends"@ && fields@[19].0@ != "CheckDepends"@ && fields@[20].0@ != "CheckDepends"@);
        assert forall|j: int| 0 <= j < 21 implies (#[trigger] fields@[j]).0@ != "CheckDepends"@ by {}
        lemma_obj_get_hit(fields@, 21, "CheckDepends"@);
        assert(fields@[0].0@ != "Provides"@ && fields@[1].0@ != "Provides"@ && fields@[2].0@ != "Provides"@ && fields@[3].0@ != "Provides"@ && fields@[4].0@ != "Provides"@ && fields@[5].0@ != "Provides"@ && fields@[6].0@ != "Provides"@ && fields@[7].0@ != "Provides"@ && fields@[8].0@ != "Provides"@ && fields@[9].0@ != "Provides"@ && fields@[10].0@ != "Provides"@ && fields@[11].0@ != "Provides"@ && fields@[12].0@ != "Provides"@ && fields@[13].0@ != "Provides"@ && fields@[14].0@ != "Provides"@ && fields@[15].0@ != "Provides"@ && fields@[16].0@ != "Provides"@ && fields@[17].0@ != "Provides"@ && fields@[18].0@ != "Provides"@ && fields@[19].0@ != "Provides"@ && fields@[20].0@ != "Provides"@ && fields@[21].0@ != "Provides"@);
        assert forall|j: int| 0 <= j < 22 implies (#[trigger] fields@[j]).0@ != "Provides"@ by {}
        lemma_obj_get_hit(fields@, 22, "Provides"@);
        assert(fields@[0].0@ != "Replaces"@ && fields@[1].0@ != "Replaces"@ && fields@[2].0@ != "Replaces"@ && fields@[3].0@ != "Replaces"@ && fields@[4].0@ != "Replaces"@ && fields@[5].0@ != "Replaces"@ && fields@[6].0@ != "Replaces"@ && fields@[7].0@ != "Replaces"@ && fields@[8].0@ != "Replaces"@ && fields@[9].0@ != "Replaces"@ && fields@[10].0@ != "Replaces"@ && fields@[11].0@ != "Replaces"@ && fields@[12].0@ != "Replaces"@ && fields@[13].0@ != "Replaces"@ && fields@[14].0@ != "Replaces"@ && fields@[15].0@ != "Replaces"@ && fields@[16].0@ != "Replaces"@ && fields@[17].0@ != "Replaces"@ && fields@[18].0@ != "Replaces"@ && fields@[19].0@ != "Replaces"@ && fields@[20].0@ != "Replaces"@ && fields@[21].0@ != "Replaces"@ && fields@[22].0@ != "Replaces"@);
        assert forall|j: int| 0 <= j < 23 implies (#[trigger] fields@[j]).0@ != "Replaces"@ by {}
        lemma_obj_get_hit(fields@, 23, "Replaces"@);
        assert(fields@[0].0@ != "Keywords"@ && fields@[1].0@ != "Keywords"@ && fields@[2].0@ != "Keywords"@ && fields@[3].0@ != "Keywords"@ && fields@[4].0@ != "Keywords"@ && fields@[5].0@ != "Keywords"@ && fields@[6].0@ != "Keywords"@ && fields@[7].0@ != "Keywords"@ && fields@[8].0@ != "Keywords"@ && fields@[9].0@ != "Keywords"@ && fields@[10].0@ != "Keywords"@ && fields@[11].0@ != "Keywords"@ && fields@[12].0@ != "Keywords"@ && fields@[13].0@ != "Keywords"@ && fields@[14].0@ != "Keywords"@ && fields@[15].0@ != "Keywords"@ && fields@[16].0@ != "Keywords"@ && fields@[17].0@ != "Keywords"@ && fields@[18].0@ != "Keywords"@ && fields@[19].0@ != "Keywords"@ && fields@[20].0@ != "Keywords"@ && fields@[21].0@ != "Keywords"@ && fields@[22].0@ != "Keywords"@ && fields@[23].0@ != "Keywords"@);
        assert forall|j: int| 0 <= j < 24 implies (#[trigger] fields@[j]).0@ != "Keywords"@ by {}
        lemma_obj_get_hit(fields@, 24, "Keywords"@);
        assert(record_err(fields@) is None);
        assert(record_view(fields@) == pkg@) by {
            assert(record_view(fields@).maintainer == pkg@.maintainer);
            assert(record_view(fields@).out_of_date == pkg@.out_of_date);
        }
    }
    JsonVal::Obj(fields)
}

/// Write a whole response envelope back out.  Reading the document back
/// reproduces the result records, in order: the envelope round-trips
/// through its document form.
pub fn query_to_doc(q: &Query) -> (r: JsonVal)
    ensures
        spec_packages_of(r) == Ok::<Seq<AurPkgView>, JErr>(q.results.deep_view()),
{
    let mut recs: Vec<JsonVal> = Vec::new();
    let n = q.results.len();
    let mut i: usize = 0;
    proof {
        assert(q.results.deep_view().take(0) =~= Seq::<AurPkgView>::empty());
        assert(spec_records_of(recs@) == Ok::<Seq<AurPkgView>, JErr>(
            q.results.deep_view().take(0),
        ));
    }
    while i < n
        invariant
            n == q.results@.len(),
            q.results.deep_view().len() == n,
            0 <= i <= n,
            recs@.len() == i,
            spec_records_of(recs@) == Ok::<Seq<AurPkgView>, JErr>(
                q.results.deep_view().take(i as int),
            ),
        decreases n - i,
    {
        let d = record_to_doc(&q.results[i]);
        let ghost prev = recs@;
        recs.push(d);
        proof {
            assert(recs@.drop_last() =~= prev);
            assert(recs@.last() == d);
            assert(q.results.deep_view()[i as int] == q.results@[i as int]@);
            assert(q.results.deep_view().take(i + 1) =~= q.results.deep_view().take(
                i as int,
            ).push(q.results.deep_view()[i as int]));
        }
        i = i + 1;
    }
    proof {
        assert(q.results.deep_view().take(n as int) =~= q.results.deep_view());
    }
    let mut fields: Vec<(String, JsonVal)> = Vec::new();
    let v0 = num_u64(q.version);
    let ghost g0 = v0;
    fields.push((String::from_str("version"), v0));
    let v1 = JsonVal::Str(q.query_type.clone());
    let ghost g1 = v1;
    fields.push((String::from_str("type"), v1));
    let v2 = num_u64(q.resultcount);
    let ghost g2 = v2;
    fields.push((String::from_str("resultcount"), v2));
    let ghost grecs = recs@;
    let v3 = JsonVal::Arr(recs);
    let ghost g3 = v3;
    fields.push((String::from_str("results"), v3));
    proof {
        reveal_strlit("version");
        reveal_strlit("type");
        reveal_strlit("resultcount");
        reveal_strlit("results");
        assert(fields@.len() == 4);
        assert(fields@[0].0@ == "version"@ && fields@[0].1 == g0);
        assert(fields@[1].0@ == "type"@ && fields@[1].1 == g1);
        assert(fields@[2].0@ == "resultcount"@ && fields@[2].1 == g2);
        assert(fields@[3].0@ == "results"@ && fields@[3].1 == g3);
        assert("version"@[0] != "results"@[0]);
        assert forall|j: int| 0 <= j < 0 implies (#[trigger] fields@[j]).0@ != "version"@ by {}
        lemma_obj_get_hit(fields@, 0, "version"@);
        assert(fields@[0].0@ != "type"@);
        assert forall|j: int| 0 <= j < 1 implies (#[trigger] fields@[j]).0@ != "type"@ by {}
        lemma_obj_get_hit(fields@, 1, "type"@);
        assert(fields@[0].0@ != "resultcount"@ && fields@[1].0@ != "resultcount"@);
        assert forall|j: int| 0 <= j < 2 implies (#[trigger] fields@[j]).0@ != "resultcount"@ by {}
        lemma_obj_get_hit(fields@, 2, "resultcount"@);
        assert(fields@[0].0@ != "results"@ && fields@[1].0@ != "results"@ && fields@[2].0@
            != "results"@);
        assert forall|j: int| 0 <= j < 3 implies (#[trigger] fields@[j]).0@ != "results"@ by {}
        lemma_obj_get_hit(fields@, 3, "results"@);
    }
    JsonVal::Obj(fields)
}

/// Read the result records out of a response text: parse it as JSON, check
/// the envelope, and extract every record, in order.  A text that is not
/// JSON is reported as a syntax fault; a well-formed text that violates the
/// schema is reported with the offending field's name.
pub fn aur_packages_from_json(json: &str) -> (r: Result<Vec<AurPkg>, PkgError>)
    ensures
        json_doc_of(json@) is None ==> (r matches Err(e) && e matches PkgError::Syntax { .. }),
        match json_doc_of(json@) {
            Some(doc) => match spec_packages_of(doc) {
                Ok(vs) => r matches Ok(v) && v.deep_view() == vs,
                Err(je) => r matches Err(e) && pkg_err_is(e, je),
            },
            None => true,
        },
{
    match json_parse(json) {
        Err(msg) => Err(PkgError::Syntax { msg }),
        Ok(doc) => packages_from_doc(&doc),
    }
}

} // verus!
