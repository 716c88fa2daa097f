//! Query-string parsing: `&`-separated pairs, each split once on its first
//! `=` into a name and a value.

use vstd::prelude::*;
use vstd::string::StringExecFns;
use crate::errors::AppError;
use crate::strutil::str_eq;

verus! {

/// One parsed query parameter.
#[derive(Debug)]
pub struct Param {
    pub name: String,
    pub value: String,
}

/// The first position at or after `from` where `c` stands in `s`.
pub open spec fn find_char_spec(s: Seq<char>, c: char, from: int) -> Option<int>
    decreases s.len() - from,
{
    if from < 0 || from >= s.len() {
        None
    } else if s[from] == c {
        Some(from)
    } else {
        find_char_spec(s, c, from + 1)
    }
}

/// One pair split once on its first `=`: the name before it, the value
/// after it. A pair without `=` does not parse.
pub open spec fn parse_param_spec(s: Seq<char>) -> Option<(Seq<char>, Seq<char>)> {
    match find_char_spec(s, '=', 0) {
        None => None,
        Some(k) => Some((s.subrange(0, k), s.subrange(k + 1, s.len() as int))),
    }
}

/// A whole query string: its `&`-separated pairs, each parsed; the first
/// pair that does not parse spoils the whole string.
pub open spec fn parse_query_spec(s: Seq<char>) -> Option<Seq<(Seq<char>, Seq<char>)>>
    decreases s.len(),
{
    match find_char_spec(s, '&', 0) {
        None => match parse_param_spec(s) {
            None => None,
            Some(p) => Some(seq![p]),
        },
        Some(k) => if !(0 <= k < s.len()) {
            None
        } else {
            match parse_param_spec(s.subrange(0, k)) {
                None => None,
                Some(p) => match parse_query_spec(s.subrange(k + 1, s.len() as int)) {
                    None => None,
                    Some(ps) => Some(seq![p] + ps),
                },
            }
        },
    }
}

/// The value of the first pair named `name`, if any pair is.
pub open spec fn lookup_param(ps: Seq<(Seq<char>, Seq<char>)>, name: Seq<char>) -> Option<
    Seq<char>,
>
    decreases ps.len(),
{
    if ps.len() == 0 {
        None
    } else if ps[0].0 == name {
        Some(ps[0].1)
    } else {
        lookup_param(ps.drop_first(), name)
    }
}

/// The message of the error a missing required parameter raises.
pub open spec fn missing_msg(name: Seq<char>) -> Seq<char> {
    "No "@ + name + " param specified"@
}

/// What looking a required parameter up in a query string yields: its
/// value, or the message of the error raised — for a query string that does
/// not parse, a missing parameter, or no query string at all.
pub open spec fn param_lookup_spec(q: Option<Seq<char>>, name: Seq<char>) -> Result<
    Seq<char>,
    Seq<char>,
> {
    match q {
        None => Err(missing_msg(name)),
        Some(qs) => match parse_query_spec(qs) {
            None => Err("Invalid query param"@),
            Some(ps) => match lookup_param(ps, name) {
                Some(v) => Ok(v),
                None => Err(missing_msg(name)),
            },
        },
    }
}

/// The names and values of a parameter sequence.
pub open spec fn pairs_of(ps: Seq<Param>) -> Seq<(Seq<char>, Seq<char>)> {
    ps.map_values(|p: Param| (p.name@, p.value@))
}

/// The first position at or after `from` where `c` stands in `s`.
fn find_char(s: &str, n: usize, from: usize, c: char) -> (r: Option<usize>)
    requires
        s@.len() == n as nat,
        from <= n,
    ensures
        match find_char_spec(s@, c, from as int) {
            Some(k) => r matches Some(k2) && k2 as int == k && from as int <= k < n as int,
            None => r is None,
        },
    decreases n - from,
{
    if from == n {
        return None;
    }
    let ch = s.get_char(from);
    if ch == c {
        Some(from)
    } else {
        find_char(s, n, from + 1, c)
    }
}

/// Splits one pair on its first `=`. A pair without `=` is a parse
/// failure.
pub fn parse_param(pair: &str) -> (r: Result<Param, AppError>)
    ensures
        match parse_param_spec(pair@) {
            Some(p) => r matches Ok(pp) && pp.name@ == p.0 && pp.value@ == p.1,
            None => r matches Err(e) && e.message@ == "Invalid query param"@,
        },
{
    let n = pair.unicode_len();
    match find_char(pair, n, 0, '=') {
        None => Err(AppError::new("Invalid query param".to_owned())),
        Some(k) => {
            let name = pair.substring_char(0, k).to_owned();
            let value = pair.substring_char(k + 1, n).to_owned();
            Ok(Param { name, value })
        },
    }
}

/// Collects parsed pairs, or surfaces the first failure.
#[verifier::loop_isolation(false)]
pub fn unwrap(res: Vec<Result<Param, AppError>>) -> (r: Result<Vec<Param>, AppError>)
    ensures
        match r {
            Ok(ps) => ps@.len() == res@.len() && forall|i: int|
                0 <= i < res@.len() ==> #[trigger] res@[i] is Ok && ps@[i] == res@[i]->Ok_0,
            Err(e) => exists|i: int|
                0 <= i < res@.len() && #[trigger] res@[i] is Err && e == res@[i]->Err_0 && forall|
                    j: int,
                |
                    0 <= j < i ==> #[trigger] res@[j] is Ok,
        },
{
    let ghost orig = res@;
    let mut rest = res;
    let mut out: Vec<Param> = Vec::new();
    proof {
        assert(rest@ =~= orig.subrange(0, orig.len() as int));
    }
    while rest.len() > 0
        invariant
            out@.len() + rest@.len() == orig.len(),
            rest@ == orig.subrange(out@.len() as int, orig.len() as int),
            forall|j: int| 0 <= j < out@.len() ==> #[trigger] orig[j] is Ok && out@[j] == orig[j]->Ok_0,
        decreases rest@.len(),
    {
        let ghost done = out@.len() as int;
        let x = rest.remove(0);
        proof {
            assert(x == orig[done]);
            assert(rest@ =~= orig.subrange(done + 1, orig.len() as int));
        }
        match x {
            Ok(p) => {
                out.push(p);
            },
            Err(e) => {
                return Err(e);
            },
        }
    }
    Ok(out)
}

/// Parses a whole query string from position zero, appending the pairs.
fn parse_query_str(s: &str, out: &mut Vec<Param>) -> (r: Result<(), AppError>)
    ensures
        match parse_query_spec(s@) {
            Some(ps) => r is Ok && pairs_of(final(out)@) == pairs_of(old(out)@) + ps,
            None => r matches Err(e) && e.message@ == "Invalid query param"@,
        },
    decreases s@.len(),
{
    let n = s.unicode_len();
    match find_char(s, n, 0, '&') {
        None => {
            match parse_param(s) {
                Err(e) => Err(e),
                Ok(p) => {
                    out.push(p);
                    proof {
                        if let Some(ps) = parse_query_spec(s@) {
                            assert(pairs_of(final(out)@) =~= pairs_of(old(out)@) + ps);
                        }
                    }
                    Ok(())
                },
            }
        },
        Some(k) => {
            let head = s.substring_char(0, k);
            match parse_param(head) {
                Err(e) => Err(e),
                Ok(p) => {
                    out.push(p);
                    let ghost mid = out@;
                    let tail = s.substring_char(k + 1, n);
                    let r = parse_query_str(tail, out);
                    proof {
                        if let Some(ps) = parse_query_spec(s@) {
                            let p0 = parse_param_spec(s@.subrange(0, k as int))->Some_0;
                            let ps2 = parse_query_spec(s@.subrange(k + 1, s@.len() as int))->Some_0;
                            assert(pairs_of(mid) =~= pairs_of(old(out)@) + seq![p0]);
                            assert(pairs_of(final(out)@) =~= pairs_of(old(out)@) + (seq![p0]
                                + ps2));
                        }
                    }
                    r
                },
            }
        },
    }
}

/// Parses an optional query string: no query string at all is an empty
/// parameter set, not a failure.
pub fn parse_query_params(query: Option<&str>) -> (r: Result<Vec<Param>, AppError>)
    ensures
        match query {
            None => r matches Ok(v) && v@.len() == 0,
            Some(q) => match parse_query_spec(q@) {
                Some(ps) => r matches Ok(v) && pairs_of(v@) == ps,
                None => r matches Err(e) && e.message@ == "Invalid query param"@,
            },
        },
{
    match query {
        None => Ok(Vec::new()),
        Some(q) => {
            let mut out: Vec<Param> = Vec::new();
            match parse_query_str(q, &mut out) {
                Err(e) => Err(e),
                Ok(()) => {
                    proof {
                        if let Some(ps) = parse_query_spec(q@) {
                            assert(pairs_of(out@) =~= ps);
                        }
                    }
                    Ok(out)
                },
            }
        },
    }
}

/// The value of a required query parameter, or the uniform error naming it
/// when it is absent, or the parse failure when the query string is
/// malformed.
#[verifier::loop_isolation(false)]
pub fn get_param_value(query: Option<&str>, param: &str) -> (r: Result<String, AppError>)
    ensures
        match param_lookup_spec(
            match query {
                None => None,
                Some(q) => Some(q@),
            },
            param@,
        ) {
            Ok(v) => r matches Ok(val) && val@ == v,
            Err(m) => r matches Err(e) && e.message@ == m,
        },
{
    let ps = match parse_query_params(query) {
        Err(e) => {
            return Err(e);
        },
        Ok(ps) => ps,
    };
    let ghost pairs = pairs_of(ps@);
    proof {
        assert(pairs.subrange(0, pairs.len() as int) =~= pairs);
    }
    let mut k: usize = 0;
    while k < ps.len()
        invariant
            pairs == pairs_of(ps@),
            pairs.len() == ps@.len(),
            k <= ps@.len(),
            lookup_param(pairs, param@) == lookup_param(
                pairs.subrange(k as int, pairs.len() as int),
                param@,
            ),
        decreases ps@.len() - k,
    {
        let p = &ps[k];
        let ghost sub = pairs.subrange(k as int, pairs.len() as int);
        proof {
            assert(sub[0] == pairs[k as int]);
            assert(sub.drop_first() =~= pairs.subrange(k + 1, pairs.len() as int));
        }
        if str_eq(p.name.as_str(), param) {
            let v = p.value.clone();
            return Ok(v);
        }
        k = k + 1;
    }
    proof {
        assert(pairs.subrange(pairs.len() as int, pairs.len() as int) =~= Seq::<(
            Seq<char>,
            Seq<char>,
        )>::empty());
    }
    let msg = "No ".to_owned().concat(param).concat(" param specified");
    Err(AppError::new(msg))
}

} // verus!
