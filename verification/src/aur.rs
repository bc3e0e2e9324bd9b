//! Query construction against the registry's RPC endpoint: the endpoint
//! state, the form-urlencoding of query parameters, and the two query kinds.

use vstd::prelude::*;
use vstd::string::*;
use crate::strutil::{ascii_string, digit_char, i64_to_string, int_str};
use vstd::utf8::encode_utf8;

verus! {

/// The registry field a search query matches against.
#[derive(Copy, Clone)]
pub enum RpcBy {
    SearchByName,
    SearchByNameDesc,
    SearchByMaintainer,
}

/// Faults when building a query URL.
#[derive(Debug, PartialEq, Eq, Structural)]
pub enum AurTErrors {
    EmptyArgumentsVector,
    InvalidBaseUrl,
}

/// A registry endpoint: the base URL combined once at construction, and the
/// protocol version sent on every query.
pub struct AurT {
    pub url_prefix: String,
    pub rpc_version: i64,
}

// ---------------------------------------------------------------------------
// Form-urlencoding
// ---------------------------------------------------------------------------

/// Bytes the form-urlencoded serializer passes through unchanged.
pub open spec fn unreserved(b: u8) -> bool {
    (48 <= b <= 57) || (65 <= b <= 90) || (97 <= b <= 122) || b == 42 || b == 45 || b == 46 || b
        == 95
}

/// The hexadecimal digit for `v < 16`, upper case.
pub open spec fn hex_digit(v: nat) -> char {
    if v < 10 {
        digit_char(v)
    } else {
        ((v + 55) as u8) as char
    }
}

/// Form-urlencoding of one byte: unreserved bytes stand for themselves, a
/// space becomes `+`, and every other byte a `%`-escape.
pub open spec fn enc_byte(b: u8) -> Seq<char> {
    if unreserved(b) {
        seq![b as char]
    } else if b == 32 {
        seq!['+']
    } else {
        seq!['%', hex_digit((b / 16) as nat), hex_digit((b % 16) as nat)]
    }
}

/// Form-urlencoding of a byte sequence.
pub open spec fn form_enc(bs: Seq<u8>) -> Seq<char>
    decreases bs.len(),
{
    if bs.len() == 0 {
        Seq::empty()
    } else {
        form_enc(bs.drop_last()) + enc_byte(bs.last())
    }
}

fn hex_code(v: u8) -> (r: u8)
    requires
        v < 16,
    ensures
        r < 128,
        r as char == hex_digit(v as nat),
{
    if v < 10 {
        v + 48
    } else {
        v + 55
    }
}

/// Encode `s` as an `application/x-www-form-urlencoded` value, byte by byte
/// over its UTF-8 encoding.
pub fn form_urlencode(s: &str) -> (r: String)
    ensures
        r@ == form_enc(encode_utf8(s@)),
{
    let bytes = s.as_bytes_vec();
    let ghost bv = bytes@;
    let mut out = String::new();
    let mut i: usize = 0;
    proof {
        assert(bv.take(0) =~= Seq::<u8>::empty());
        assert(out@ =~= form_enc(bv.take(0)));
    }
    let n = bytes.len();
    while i < n
        invariant
            n == bv.len(),
            bv == bytes@,
            0 <= i <= n,
            out@ == form_enc(bv.take(i as int)),
        decreases n - i,
    {
        proof {
            assert(bv.take(i + 1).drop_last() =~= bv.take(i as int));
            assert(bv.take(i + 1).last() == bv[i as int]);
        }
        let b = bytes[i];
        let mut piece: Vec<u8> = Vec::new();
        if (48 <= b && b <= 57) || (65 <= b && b <= 90) || (97 <= b && b <= 122) || b == 42 || b
            == 45 || b == 46 || b == 95 {
            piece.push(b);
        } else if b == 32 {
            piece.push(43);
        } else {
            piece.push(37);
            piece.push(hex_code(b / 16));
            piece.push(hex_code(b % 16));
        }
        let ps = ascii_string(piece);
        proof {
            assert(ps@ =~= enc_byte(bv[i as int]));
        }
        out.append(ps.as_str());
        proof {
            assert(out@ =~= form_enc(bv.take(i + 1)));
        }
        i = i + 1;
    }
    proof {
        assert(bv.take(n as int) =~= bv);
    }
    out
}

// ---------------------------------------------------------------------------
// Query strings
// ---------------------------------------------------------------------------

/// The repeated `arg[]` pairs of an info query, one per name, in order.
/// `arg[]` itself is sent encoded, as `arg%5B%5D`.
pub open spec fn info_args(names: Seq<Seq<char>>) -> Seq<char>
    decreases names.len(),
{
    if names.len() == 0 {
        Seq::empty()
    } else {
        info_args(names.drop_last()) + "&arg%5B%5D="@ + form_enc(encode_utf8(names.last()))
    }
}

/// The full query string of an info query: the fixed `v` and `type` pairs,
/// then one `arg[]` pair per name.
pub open spec fn info_query(ver: int, names: Seq<Seq<char>>) -> Seq<char> {
    "v="@ + int_str(ver) + "&type=info"@ + info_args(names)
}

/// The token a search field sends as its `by` parameter.
pub open spec fn by_token(by: RpcBy) -> Seq<char> {
    match by {
        RpcBy::SearchByName => "name"@,
        RpcBy::SearchByNameDesc => "name-desc"@,
        RpcBy::SearchByMaintainer => "maintainer"@,
    }
}

/// The full query string of a search query.
pub open spec fn search_query(ver: int, by: RpcBy, term: Seq<char>) -> Seq<char> {
    "v="@ + int_str(ver) + "&type=search&arg="@ + form_enc(encode_utf8(term)) + "&by="@ + by_token(
        by,
    )
}

// ---------------------------------------------------------------------------
// The url crate, behind trusted declarations
// ---------------------------------------------------------------------------

#[verifier::external_type_specification]
#[verifier::external_body]
pub struct ExUrl(url::Url);

#[verifier::external_type_specification]
#[verifier::external_body]
pub struct ExUrlParseError(url::ParseError);

/// Whether `s` parses as an absolute URL; fixed by its characters alone.
pub uninterp spec fn url_parse_ok(s: Seq<char>) -> bool;

/// The query string a URL carries (empty when it has none).
pub uninterp spec fn url_query(u: url::Url) -> Seq<char>;

/// The path a URL carries.
pub uninterp spec fn url_path(u: url::Url) -> Seq<char>;

/// A character a URL scheme may hold.
pub open spec fn is_scheme_char(c: char) -> bool {
    ('a' <= c && c <= 'z') || ('A' <= c && c <= 'Z') || ('0' <= c && c <= '9') || c == '+' || c
        == '-' || c == '.'
}

/// Whether `s` opens with a scheme followed by `://`: the shape under which
/// a parsed URL carries an authority, so that a set path gains its leading
/// slash.
pub open spec fn has_scheme_authority(s: Seq<char>) -> bool {
    exists|i: int|
        {
            &&& 0 <= i
            &&& i + 3 <= s.len()
            &&& (forall|j: int| 0 <= j < i ==> is_scheme_char(#[trigger] s[j]))
            &&& #[trigger] s[i] == ':'
            &&& s[i + 1] == '/'
            &&& s[i + 2] == '/'
        }
}

/// Characters that the url crate's query writer stores unchanged: the ones
/// our query strings are built from.
pub open spec fn query_safe(s: Seq<char>) -> bool {
    forall|i: int|
        0 <= i < s.len() ==> {
            let c = #[trigger] s[i];
            (('0' <= c && c <= '9') || ('A' <= c && c <= 'Z') || ('a' <= c && c <= 'z') || c == '*'
                || c == '-' || c == '.' || c == '_' || c == '+' || c == '%' || c == '&' || c == '=')
        }
}

/// Relies on `url::Url::parse`, `set_path` and `set_query`: parsing
/// succeeds or fails by the text alone; a query of characters outside the
/// query escape set is stored exactly as given; and on a base of the shape
/// `scheme://...`, which parses to a URL with an authority, the set path
/// `rpc.php` is stored behind a leading slash.  (A base without that shape
/// can parse to a cannot-be-a-base URL, where the path is stored without
/// the slash, so the path claim is conditional.)
#[verifier::external_body]
fn build_rpc_url(base: &str, query: &str) -> (r: Result<url::Url, url::ParseError>)
    requires
        query_safe(query@),
    ensures
        r is Ok <==> url_parse_ok(base@),
        match r {
            Ok(u) => url_query(u) == query@ && (has_scheme_authority(base@) ==> url_path(u)
                == "/rpc.php"@),
            Err(_) => true,
        },
{
    match url::Url::parse(base) {
        Ok(mut u) => {
            u.set_path("rpc.php");
            u.set_query(Some(query));
            Ok(u)
        },
        Err(e) => Err(e),
    }
}

// ---------------------------------------------------------------------------
// Safety of the generated query strings
// ---------------------------------------------------------------------------

pub proof fn lemma_concat_safe(a: Seq<char>, b: Seq<char>)
    requires
        query_safe(a),
        query_safe(b),
    ensures
        query_safe(a + b),
{
    assert forall|i: int| 0 <= i < (a + b).len() implies query_safe_at(a + b, i) by {
        if i < a.len() {
            assert((a + b)[i] == a[i]);
        } else {
            assert((a + b)[i] == b[i - a.len()]);
        }
    }
}

/// The safety condition at one index, named so the quantifier has a stable
/// shape.
pub open spec fn query_safe_at(s: Seq<char>, i: int) -> bool {
    let c = s[i];
    ('0' <= c && c <= '9') || ('A' <= c && c <= 'Z') || ('a' <= c && c <= 'z') || c == '*' || c
        == '-' || c == '.' || c == '_' || c == '+' || c == '%' || c == '&' || c == '='
}

pub proof fn lemma_enc_byte_safe(b: u8)
    ensures
        query_safe(enc_byte(b)),
{
}

pub proof fn lemma_form_enc_safe(bs: Seq<u8>)
    ensures
        query_safe(form_enc(bs)),
    decreases bs.len(),
{
    if bs.len() == 0 {
    } else {
        lemma_form_enc_safe(bs.drop_last());
        lemma_enc_byte_safe(bs.last());
        lemma_concat_safe(form_enc(bs.drop_last()), enc_byte(bs.last()));
    }
}

pub proof fn lemma_dec_str_safe(v: nat)
    ensures
        query_safe(crate::strutil::dec_str(v)),
    decreases v,
{
    if v >= 10 {
        lemma_dec_str_safe(v / 10);
        lemma_concat_safe(crate::strutil::dec_str(v / 10), seq![digit_char(v % 10)]);
        assert(crate::strutil::dec_str(v / 10).push(digit_char(v % 10)) =~= crate::strutil::dec_str(
            v / 10,
        ) + seq![digit_char(v % 10)]);
    }
}

pub proof fn lemma_int_str_safe(v: int)
    ensures
        query_safe(int_str(v)),
{
    if v >= 0 {
        lemma_dec_str_safe(v as nat);
    } else {
        lemma_dec_str_safe((-v) as nat);
        lemma_concat_safe(seq!['-'], crate::strutil::dec_str((-v) as nat));
    }
}

pub proof fn lemma_info_args_safe(names: Seq<Seq<char>>)
    ensures
        query_safe(info_args(names)),
    decreases names.len(),
{
    if names.len() > 0 {
        lemma_info_args_safe(names.drop_last());
        reveal_strlit("&arg%5B%5D=");
        lemma_form_enc_safe(encode_utf8(names.last()));
        lemma_concat_safe(info_args(names.drop_last()), "&arg%5B%5D="@);
        lemma_concat_safe(
            info_args(names.drop_last()) + "&arg%5B%5D="@,
            form_enc(encode_utf8(names.last())),
        );
    }
}

pub proof fn lemma_info_query_safe(ver: int, names: Seq<Seq<char>>)
    ensures
        query_safe(info_query(ver, names)),
{
    reveal_strlit("v=");
    reveal_strlit("&type=info");
    lemma_int_str_safe(ver);
    lemma_info_args_safe(names);
    lemma_concat_safe("v="@, int_str(ver));
    lemma_concat_safe("v="@ + int_str(ver), "&type=info"@);
    lemma_concat_safe("v="@ + int_str(ver) + "&type=info"@, info_args(names));
}

pub proof fn lemma_search_query_safe(ver: int, by: RpcBy, term: Seq<char>)
    ensures
        query_safe(search_query(ver, by, term)),
{
    reveal_strlit("v=");
    reveal_strlit("&type=search&arg=");
    reveal_strlit("&by=");
    reveal_strlit("name");
    reveal_strlit("name-desc");
    reveal_strlit("maintainer");
    lemma_int_str_safe(ver);
    lemma_form_enc_safe(encode_utf8(term));
    lemma_concat_safe("v="@, int_str(ver));
    lemma_concat_safe("v="@ + int_str(ver), "&type=search&arg="@);
    lemma_concat_safe("v="@ + int_str(ver) + "&type=search&arg="@, form_enc(encode_utf8(term)));
    lemma_concat_safe(
        "v="@ + int_str(ver) + "&type=search&arg="@ + form_enc(encode_utf8(term)),
        "&by="@,
    );
    lemma_concat_safe(
        "v="@ + int_str(ver) + "&type=search&arg="@ + form_enc(encode_utf8(term)) + "&by="@,
        by_token(by),
    );
}

/// The `by` parameter of every search query is one of the three defined
/// tokens.
pub proof fn lemma_search_by_token(by: RpcBy)
    ensures
        by_token(by) == "name"@ || by_token(by) == "name-desc"@ || by_token(by) == "maintainer"@,
{
}

/// An endpoint combined from a protocol of scheme characters and a domain
/// has the `scheme://...` shape, so its built URLs carry the `/rpc.php`
/// path.
pub proof fn lemma_prefix_has_authority(proto: Seq<char>, domain: Seq<char>)
    requires
        forall|j: int| 0 <= j < proto.len() ==> is_scheme_char(#[trigger] proto[j]),
    ensures
        has_scheme_authority(proto + "://"@ + domain),
{
    reveal_strlit("://");
    let s = proto + "://"@ + domain;
    let i = proto.len() as int;
    assert(s[i] == ':' && s[i + 1] == '/' && s[i + 2] == '/');
    assert(forall|j: int| 0 <= j < i ==> s[j] == proto[j]);
}

// ---------------------------------------------------------------------------
// The pairs of an info query
// ---------------------------------------------------------------------------

/// No ampersand: the text stays inside one query pair.
pub open spec fn no_amp(s: Seq<char>) -> bool {
    forall|i: int| 0 <= i < s.len() ==> s[i] != '&'
}

/// The query split at its `&` separators: the pairs, still encoded.
pub open spec fn amp_split(q: Seq<char>) -> Seq<Seq<char>>
    decreases q.len(),
    via amp_split_decreases
{
    match crate::strutil::first_occ(q, '&') {
        Some(i) => seq![q.take(i as int)] + amp_split(q.skip(i as int + 1)),
        None => seq![q],
    }
}

#[via_fn]
proof fn amp_split_decreases(q: Seq<char>) {
    crate::strutil::lemma_first_occ(q, '&');
}

proof fn lemma_amp_split_whole(q: Seq<char>)
    requires
        no_amp(q),
    ensures
        amp_split(q) == seq![q],
{
    crate::strutil::lemma_first_occ(q, '&');
    if crate::strutil::first_occ(q, '&') is Some {
        assert(q[crate::strutil::first_occ(q, '&')->0 as int] == '&');
    }
}

proof fn lemma_amp_split_step(a: Seq<char>, b: Seq<char>)
    requires
        no_amp(a),
    ensures
        amp_split(a + seq!['&'] + b) == seq![a] + amp_split(b),
{
    let q = a + seq!['&'] + b;
    assert(q[a.len() as int] == '&');
    assert(forall|j: int| 0 <= j < a.len() ==> q[j] == a[j]);
    crate::strutil::lemma_first_occ_unique(q, '&', a.len());
    assert(q.take(a.len() as int) =~= a);
    assert(q.skip(a.len() as int + 1) =~= b);
}

/// Splitting survives appending one more `&`-separated pair.
proof fn lemma_amp_split_append(x: Seq<char>, c: Seq<char>)
    requires
        no_amp(c),
    ensures
        amp_split(x + seq!['&'] + c) == amp_split(x).push(c),
    decreases x.len(),
{
    crate::strutil::lemma_first_occ(x, '&');
    match crate::strutil::first_occ(x, '&') {
        Some(i) => {
            let q = x + seq!['&'] + c;
            assert(q[i as int] == x[i as int]);
            assert(forall|j: int| 0 <= j < i ==> q[j] == x[j]);
            crate::strutil::lemma_first_occ_unique(q, '&', i);
            assert(q.take(i as int) =~= x.take(i as int));
            assert(q.skip(i as int + 1) =~= x.skip(i as int + 1) + seq!['&'] + c);
            lemma_amp_split_append(x.skip(i as int + 1), c);
            assert(seq![x.take(i as int)] + amp_split(x.skip(i as int + 1)).push(c) =~= (
            seq![x.take(i as int)] + amp_split(x.skip(i as int + 1))).push(c));
        },
        None => {
            lemma_amp_split_step(x, c);
            lemma_amp_split_whole(x);
            lemma_amp_split_whole(c);
            assert(seq![x] + seq![c] =~= seq![x].push(c));
        },
    }
}

proof fn lemma_int_str_no_amp(v: int)
    ensures
        no_amp(int_str(v)),
{
    lemma_int_str_safe(v);
    assert forall|i: int| 0 <= i < int_str(v).len() implies int_str(v)[i] != '&' by {
        if v >= 0 {
            lemma_dec_str_no_amp(v as nat);
        } else {
            lemma_dec_str_no_amp((-v) as nat);
        }
    }
}

proof fn lemma_dec_str_no_amp(v: nat)
    ensures
        no_amp(crate::strutil::dec_str(v)),
    decreases v,
{
    if v >= 10 {
        lemma_dec_str_no_amp(v / 10);
    }
}

proof fn lemma_enc_no_amp(bs: Seq<u8>)
    ensures
        no_amp(form_enc(bs)),
    decreases bs.len(),
{
    if bs.len() > 0 {
        lemma_enc_no_amp(bs.drop_last());
        let e = enc_byte(bs.last());
        assert(no_amp(e));
        assert forall|i: int| 0 <= i < form_enc(bs).len() implies form_enc(bs)[i] != '&' by {
            if i < form_enc(bs.drop_last()).len() {
                assert(form_enc(bs)[i] == form_enc(bs.drop_last())[i]);
            } else {
                assert(form_enc(bs)[i] == e[i - form_enc(bs.drop_last()).len()]);
            }
        }
    }
}

/// The pairs of an info query, exactly: the fixed `v` and `type` pairs, then
/// one encoded `arg[]` pair per name, in input order.
pub proof fn lemma_info_query_pairs(ver: int, names: Seq<Seq<char>>)
    ensures
        amp_split(info_query(ver, names)).len() == 2 + names.len(),
        amp_split(info_query(ver, names))[0] == "v="@ + int_str(ver),
        amp_split(info_query(ver, names))[1] == "type=info"@,
        forall|i: int| 0 <= i < names.len() ==> amp_split(info_query(ver, names))[2 + i]
            == "arg%5B%5D="@ + form_enc(encode_utf8(names[i])),
    decreases names.len(),
{
    reveal_strlit("v=");
    reveal_strlit("&type=info");
    reveal_strlit("type=info");
    reveal_strlit("&arg%5B%5D=");
    reveal_strlit("arg%5B%5D=");
    if names.len() == 0 {
        assert(info_query(ver, names) =~= ("v="@ + int_str(ver)) + seq!['&'] + "type=info"@) by {
            lemma_int_str_no_amp(ver);
            assert("&type=info"@ =~= seq!['&'] + "type=info"@);
        }
        lemma_int_str_no_amp(ver);
        assert(no_amp("v="@ + int_str(ver))) by {
            assert(forall|i: int|
                0 <= i < ("v="@ + int_str(ver)).len() && i >= 2 ==> ("v="@ + int_str(ver))[i]
                    == int_str(ver)[i - 2]);
        }
        assert(no_amp("type=info"@));
        lemma_amp_split_step("v="@ + int_str(ver), "type=info"@);
        lemma_amp_split_whole("type=info"@);
    } else {
        lemma_info_query_pairs(ver, names.drop_last());
        let prefix = info_query(ver, names.drop_last());
        let c = "arg%5B%5D="@ + form_enc(encode_utf8(names.last()));
        assert(info_query(ver, names) =~= prefix + seq!['&'] + c) by {
            assert("&arg%5B%5D="@ =~= seq!['&'] + "arg%5B%5D="@);
        }
        assert(no_amp(c)) by {
            lemma_enc_no_amp(encode_utf8(names.last()));
            assert(forall|i: int|
                0 <= i < c.len() && i >= 10 ==> c[i] == form_enc(encode_utf8(names.last()))[i
                    - 10]);
        }
        lemma_amp_split_append(prefix, c);
        assert(forall|i: int|
            0 <= i < names.len() - 1 ==> #[trigger] names.drop_last()[i] == names[i]);
        assert forall|i: int| 0 <= i < names.len() implies amp_split(info_query(ver, names))[2 + i]
            == "arg%5B%5D="@ + form_enc(encode_utf8(names[i])) by {
            if i < names.len() - 1 {
                assert(amp_split(info_query(ver, names))[2 + i] == amp_split(prefix)[2 + i]);
                assert(names.drop_last()[i] == names[i]);
            } else {
                assert(amp_split(prefix).len() == 2 + names.drop_last().len());
                assert(2 + i == amp_split(prefix).len());
                assert(amp_split(info_query(ver, names)) == amp_split(prefix).push(c));
                assert(amp_split(prefix).push(c)[2 + i] == c);
                assert(names[i] == names.last());
            }
        }
    }
}

// ---------------------------------------------------------------------------
// The endpoint
// ---------------------------------------------------------------------------

impl AurT {
    /// An endpoint for `<proto>://<domain>`, speaking protocol version 5.
    pub fn new(proto: &str, domain: &str) -> (r: AurT)
        ensures
            r.url_prefix@ == proto@ + "://"@ + domain@,
            r.rpc_version == 5,
    {
        let mut url = String::from_str(proto);
        url.append("://");
        url.append(domain);
        AurT { url_prefix: url, rpc_version: 5 }
    }

    /// The query string of an info request for `args`.
    fn info_query_string(&self, args: &[&str]) -> (q: String)
        ensures
            q@ == info_query(self.rpc_version as int, args.deep_view()),
            query_safe(q@),
    {
        let ghost dv = args.deep_view();
        let mut q = String::from_str("v=");
        let vs = i64_to_string(self.rpc_version);
        q.append(vs.as_str());
        q.append("&type=info");
        let ghost fixed = "v="@ + int_str(self.rpc_version as int) + "&type=info"@;
        proof {
            assert(dv.take(0) =~= Seq::<Seq<char>>::empty());
            assert(q@ =~= fixed + info_args(dv.take(0)));
        }
        let n = args.len();
        let mut i: usize = 0;
        while i < n
            invariant
                n == args@.len(),
                dv == args.deep_view(),
                dv.len() == n,
                0 <= i <= n,
                fixed == "v="@ + int_str(self.rpc_version as int) + "&type=info"@,
                q@ == fixed + info_args(dv.take(i as int)),
            decreases n - i,
        {
            proof {
                assert(dv.take(i + 1).drop_last() =~= dv.take(i as int));
                assert(dv.take(i + 1).last() == dv[i as int]);
                assert(dv[i as int] == args@[i as int]@);
            }
            q.append("&arg%5B%5D=");
            let e = form_urlencode(args[i]);
            q.append(e.as_str());
            proof {
                assert(q@ =~= fixed + info_args(dv.take(i + 1)));
            }
            i = i + 1;
        }
        proof {
            assert(dv.take(n as int) =~= dv);
            lemma_info_query_safe(self.rpc_version as int, dv);
        }
        q
    }

    /// Build the info-query URL for `args`: one repeated `arg[]` pair per
    /// name, in order, after the fixed `v` and `type` pairs, against the
    /// endpoint's `rpc.php` path.  An empty name list is rejected before any
    /// URL work; a base URL that does not parse is reported as
    /// `InvalidBaseUrl`.
    pub fn aur_build_rpc_info_url(&self, args: &[&str]) -> (r: Result<url::Url, AurTErrors>)
        ensures
            args@.len() == 0 ==> r == Err::<url::Url, AurTErrors>(
                AurTErrors::EmptyArgumentsVector,
            ),
            args@.len() > 0 ==> {
                &&& (r is Ok <==> url_parse_ok(self.url_prefix@))
                &&& (match r {
                    Ok(u) => url_query(u) == info_query(self.rpc_version as int, args.deep_view())
                        && (has_scheme_authority(self.url_prefix@) ==> url_path(u)
                        == "/rpc.php"@),
                    Err(e) => e == AurTErrors::InvalidBaseUrl,
                })
            },
    {
        if args.len() == 0 {
            return Err(AurTErrors::EmptyArgumentsVector);
        }
        let q = self.info_query_string(args);
        match build_rpc_url(self.url_prefix.as_str(), q.as_str()) {
            Ok(u) => Ok(u),
            Err(_) => Err(AurTErrors::InvalidBaseUrl),
        }
    }

    /// Build the search-query URL for `arg` against the field `rpc_by`, on
    /// the endpoint's `rpc.php` path.  Succeeds for every term; only a base
    /// URL that does not parse is reported as `InvalidBaseUrl`.
    pub fn aur_build_rpc_search_url(&self, rpc_by: RpcBy, arg: &str) -> (r: Result<
        url::Url,
        AurTErrors,
    >)
        ensures
            r is Ok <==> url_parse_ok(self.url_prefix@),
            match r {
                Ok(u) => url_query(u) == search_query(self.rpc_version as int, rpc_by, arg@) && (
                has_scheme_authority(self.url_prefix@) ==> url_path(u) == "/rpc.php"@),
                Err(e) => e == AurTErrors::InvalidBaseUrl,
            },
    {
        let mut q = String::from_str("v=");
        let vs = i64_to_string(self.rpc_version);
        q.append(vs.as_str());
        q.append("&type=search&arg=");
        let e = form_urlencode(arg);
        q.append(e.as_str());
        q.append("&by=");
        match rpc_by {
            RpcBy::SearchByName => q.append("name"),
            RpcBy::SearchByNameDesc => q.append("name-desc"),
            RpcBy::SearchByMaintainer => q.append("maintainer"),
        }
        proof {
            assert(q@ =~= search_query(self.rpc_version as int, rpc_by, arg@));
            lemma_search_query_safe(self.rpc_version as int, rpc_by, arg@);
        }
        match build_rpc_url(self.url_prefix.as_str(), q.as_str()) {
            Ok(u) => Ok(u),
            Err(_) => Err(AurTErrors::InvalidBaseUrl),
        }
    }
}

} // verus!
