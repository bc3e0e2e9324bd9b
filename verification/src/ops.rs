//! Validation of the requested operation set and vetting of search
//! arguments.

use vstd::prelude::*;
use crate::config::{Config, OpMask, SearchBy};
use crate::strutil::{trim, trim_spec};
use vstd::string::*;

verus! {

/// A fault in how the run was requested.
#[derive(Debug)]
pub enum CowerError {
    InvalidOperation,
    InvalidRegexes { regex: String },
}

/// The operation selectors the client accepts: info alone, search alone, or
/// a non-empty combination of update and download.
pub open spec fn valid_opmask(m: OpMask) -> bool {
    ||| (m.info && !m.search && !m.download && !m.update)
    ||| (m.search && !m.info && !m.download && !m.update)
    ||| ((m.update || m.download) && !m.info && !m.search)
}

/// Reject operation combinations outside the accepted selectors.
pub fn check_operation_combinations(config: &Config) -> (r: Result<(), CowerError>)
    ensures
        r is Ok <==> valid_opmask(config.opmask),
        match r {
            Ok(_) => true,
            Err(e) => e is InvalidOperation,
        },
{
    let m = config.opmask;
    let valid = (m.info && !m.search && !m.download && !m.update) || (m.search && !m.info
        && !m.download && !m.update) || ((m.update || m.download) && !m.info && !m.search);
    if valid {
        Ok(())
    } else {
        Err(CowerError::InvalidOperation)
    }
}

/// Whether free-text arguments are interpreted as regular expressions: only
/// for non-literal searches on a field other than the maintainer.
pub fn allow_regex(config: &Config) -> (r: bool)
    ensures
        r == (config.opmask.search && !config.literal && !(config.search_by is Maintainer)),
{
    config.opmask.search && !config.literal && !(matches!(config.search_by, SearchBy::Maintainer))
}

/// Whether `s` compiles as a regular expression; fixed by the characters of
/// `s` alone.
pub uninterp spec fn regex_ok(s: Seq<char>) -> bool;

/// Relies on `regex::Regex::new`: a pattern either compiles or is rejected,
/// decided by its characters alone.
#[verifier::external_body]
fn regex_is_valid(s: &str) -> (r: bool)
    ensures
        r == regex_ok(s@),
{
    regex::Regex::new(s).is_ok()
}

/// The arguments among `args` that do not compile as regular expressions, in
/// order.
pub open spec fn bad_regexes(args: Seq<Seq<char>>) -> Seq<Seq<char>>
    decreases args.len(),
{
    if args.len() == 0 {
        Seq::empty()
    } else {
        bad_regexes(args.drop_last()) + (if regex_ok(args.last()) {
            Seq::<Seq<char>>::empty()
        } else {
            seq![args.last()]
        })
    }
}

/// Collect the arguments that are not valid regular expressions.
pub fn invalid_regexes(args: &Vec<String>) -> (r: Vec<String>)
    ensures
        r.deep_view() == bad_regexes(args.deep_view()),
{
    let ghost dv = args.deep_view();
    let mut out: Vec<String> = Vec::new();
    let mut i: usize = 0;
    proof {
        assert(dv.take(0) =~= Seq::<Seq<char>>::empty());
        assert(out.deep_view() =~= bad_regexes(dv.take(0)));
    }
    let n = args.len();
    while i < n
        invariant
            n == args@.len(),
            dv == args.deep_view(),
            dv.len() == n,
            0 <= i <= n,
            out.deep_view() == bad_regexes(dv.take(i as int)),
        decreases n - i,
    {
        proof {
            assert(dv.take(i + 1).drop_last() =~= dv.take(i as int));
            assert(dv.take(i + 1).last() == dv[i as int]);
            assert(dv[i as int] == args@[i as int]@);
        }
        let ghost prev = out.deep_view();
        if !regex_is_valid(args[i].as_str()) {
            out.push(args[i].clone());
            proof {
                assert(out.deep_view() =~= prev.push(dv[i as int]));
                assert(prev.push(dv[i as int]) =~= prev + seq![dv[i as int]]);
            }
        } else {
            proof {
                assert(bad_regexes(dv.take(i + 1)) =~= prev);
            }
        }
        i = i + 1;
    }
    proof {
        assert(dv.take(n as int) =~= dv);
    }
    out
}

/// `ls` joined with a newline between every two entries.
pub open spec fn join_nl(ls: Seq<Seq<char>>) -> Seq<char>
    decreases ls.len(),
{
    if ls.len() == 0 {
        Seq::empty()
    } else if ls.len() == 1 {
        ls[0]
    } else {
        join_nl(ls.drop_last()) + seq!['\n'] + ls.last()
    }
}

/// Join strings with newlines.
fn join_with_nl(v: &Vec<String>) -> (r: String)
    ensures
        r@ == join_nl(v.deep_view()),
{
    let ghost dv = v.deep_view();
    let mut out = String::new();
    let mut i: usize = 0;
    proof {
        assert(out@ =~= join_nl(dv.take(0)));
    }
    let n = v.len();
    while i < n
        invariant
            n == v@.len(),
            dv == v.deep_view(),
            dv.len() == n,
            0 <= i <= n,
            out@ == join_nl(dv.take(i as int)),
        decreases n - i,
    {
        proof {
            assert(dv.take(i + 1).drop_last() =~= dv.take(i as int));
            assert(dv.take(i + 1).last() == dv[i as int]);
            assert(dv[i as int] == v@[i as int]@);
        }
        if i > 0 {
            out.append("\n");
            proof {
                reveal_strlit("\n");
                assert("\n"@ =~= seq!['\n']);
            }
        }
        out.append(v[i].as_str());
        proof {
            if i == 0 {
                assert(out@ =~= join_nl(dv.take(1)));
            } else {
                assert(out@ =~= join_nl(dv.take(i + 1)));
            }
        }
        i = i + 1;
    }
    proof {
        assert(dv.take(n as int) =~= dv);
    }
    out
}

/// Check the free-text arguments as regular expressions and report the ones
/// that fail to compile, joined into one `InvalidRegexes` error; `None` when
/// all compile.
pub fn regex_failure(args: &Vec<String>) -> (r: Option<CowerError>)
    ensures
        r is None <==> bad_regexes(args.deep_view()).len() == 0,
        match r {
            None => true,
            Some(e) => match e {
                CowerError::InvalidRegexes { regex } => regex@ == trim_spec(
                    join_nl(bad_regexes(args.deep_view())),
                ),
                _ => false,
            },
        },
{
    let bad = invalid_regexes(args);
    if bad.len() == 0 {
        proof {
            assert(bad.deep_view().len() == 0);
        }
        None
    } else {
        proof {
            assert(bad.deep_view().len() == bad@.len());
        }
        let joined = join_with_nl(&bad);
        let trimmed = trim(joined.as_str());
        Some(CowerError::InvalidRegexes { regex: String::from_str(trimmed) })
    }
}

} // verus!
