//! Listing filters: the duration argument with its `S` / `M:S` / `H:M:S`
//! parse, and the where-clause builder that turns a filter argument into a
//! SQL fragment with bound parameters.

use crate::emit::{join_sep, lemma_join_sep_push};
use crate::text::{
    all_digits, digit_val_exec, digits_val, dec_str, lemma_digits_val_prefix,
    push_char, to_ascii_upper, u64_to_dec, upper_str,
};
use vstd::prelude::*;
use vstd::string::StrSliceExecFns;
use vstd::string::StringExecFns;

verus! {

/// A duration in whole seconds, as given on the command line.
pub struct DurationArg(pub usize);

/// The listing filter: optional name prefix, tag, and approximate duration
/// with its allowed error, plus a cap on the number of results.
pub struct FilterArg {
    pub name: Option<String>,
    pub tag: Option<String>,
    pub duration: Option<DurationArg>,
    pub duration_range: usize,
    pub limit: usize,
}

/// A duration argument that could not be parsed: a part is not a decimal
/// number, or the total does not fit the machine word.
#[derive(Clone, Copy, PartialEq, Eq, Structural, Debug)]
pub struct DurationParseError;

/// `s` without one leading `+`, the sign a decimal number may carry.
pub open spec fn strip_plus(s: Seq<char>) -> Seq<char> {
    if s.len() > 0 && s[0] == '+' {
        s.drop_first()
    } else {
        s
    }
}

/// The unsigned decimal read of `s`: an optional leading `+`, then at least
/// one digit and nothing else.
pub open spec fn parse_usize_spec(s: Seq<char>) -> Option<nat> {
    let d = strip_plus(s);
    if d.len() > 0 && all_digits(d) {
        Some(digits_val(d))
    } else {
        None
    }
}

/// `s` split on `sep`: one part per separator-free run, an empty part
/// between adjacent separators and at either end.
pub open spec fn split_on(s: Seq<char>, sep: char) -> Seq<Seq<char>>
    decreases s.len(),
{
    if s.len() == 0 {
        seq![Seq::<char>::empty()]
    } else if s[0] == sep {
        seq![Seq::<char>::empty()] + split_on(s.drop_first(), sep)
    } else {
        let rest = split_on(s.drop_first(), sep);
        seq![seq![s[0]] + rest[0]] + rest.drop_first()
    }
}

/// A split has at least one part.
pub proof fn lemma_split_on_nonempty(s: Seq<char>, sep: char)
    ensures
        split_on(s, sep).len() > 0,
    decreases s.len(),
{
    if s.len() > 0 {
        lemma_split_on_nonempty(s.drop_first(), sep);
    }
}

/// The seconds read of colon-separated parts, most significant first: each
/// part a decimal number, each additional part scaling what came before it
/// by sixty.
pub open spec fn parts_val(parts: Seq<Seq<char>>) -> Option<nat>
    decreases parts.len(),
{
    if parts.len() == 0 {
        Some(0)
    } else {
        let rest = parts_val(parts.drop_last());
        let last = parse_usize_spec(parts.last());
        if rest is Some && last is Some {
            Some(rest->0 * 60 + last->0)
        } else {
            None
        }
    }
}

/// The seconds read of a duration argument: its colon-separated parts,
/// most significant first.
pub open spec fn duration_secs_spec(s: Seq<char>) -> Option<nat> {
    parts_val(split_on(s, ':'))
}

/// When the whole part list reads as a value, so does every prefix, and to
/// at most that value.
pub proof fn lemma_parts_val_prefix(parts: Seq<Seq<char>>, j: int)
    requires
        0 <= j <= parts.len(),
        parts_val(parts) is Some,
    ensures
        parts_val(parts.take(j)) is Some,
        parts_val(parts.take(j))->0 <= parts_val(parts)->0,
    decreases parts.len(),
{
    if j < parts.len() {
        assert(parts.drop_last().take(j) =~= parts.take(j));
        lemma_parts_val_prefix(parts.drop_last(), j);
    } else {
        assert(parts.take(j) =~= parts);
    }
}

/// Split `s` on `sep`.
fn split_exec(s: &str, sep: char) -> (r: Vec<String>)
    ensures
        r.deep_view() == split_on(s@, sep),
{
    let n = s.unicode_len();
    let mut done: Vec<String> = Vec::new();
    let mut cur = String::new();
    let mut i: usize = 0;
    proof {
        assert(s@.skip(0) =~= s@);
        lemma_split_on_nonempty(s@, sep);
        assert(split_on(s@, sep) =~~= done.deep_view() + seq![
            cur@ + split_on(s@.skip(0), sep)[0],
        ] + split_on(s@.skip(0), sep).drop_first());
    }
    while i < n
        invariant
            n == s@.len(),
            i <= n,
            split_on(s@, sep) == done.deep_view() + seq![cur@ + split_on(s@.skip(i as int), sep)[0]]
                + split_on(s@.skip(i as int), sep).drop_first(),
        decreases n - i,
    {
        let c = s.get_char(i);
        proof {
            lemma_split_on_nonempty(s@.skip(i as int + 1), sep);
            assert(s@.skip(i as int).drop_first() =~= s@.skip(i as int + 1));
            assert(s@.skip(i as int)[0] == s@[i as int]);
        }
        if c == sep {
            done.push(cur);
            cur = String::new();
            proof {
                let rest = split_on(s@.skip(i as int + 1), sep);
                assert(split_on(s@, sep) =~~= done.deep_view() + seq![cur@ + rest[0]]
                    + rest.drop_first());
            }
        } else {
            let ghost oc: Seq<char> = cur@;
            push_char(&mut cur, c);
            proof {
                let rest0 = split_on(s@.skip(i as int), sep);
                let rest = split_on(s@.skip(i as int + 1), sep);
                assert(cur@ + rest[0] =~= oc + rest0[0]);
                assert(rest0.drop_first() =~= rest.drop_first());
                assert(split_on(s@, sep) =~~= done.deep_view() + seq![cur@ + rest[0]]
                    + rest.drop_first());
            }
        }
        i = i + 1;
    }
    proof {
        assert(s@.skip(n as int).len() == 0);
    }
    done.push(cur);
    proof {
        assert(done.deep_view() =~~= split_on(s@, sep));
    }
    done
}

/// Parse one decimal part. `None` exactly when the part is not a decimal
/// number or its value does not fit the machine word.
fn parse_usize_part(s: &str) -> (r: Option<usize>)
    ensures
        match r {
            Some(v) => parse_usize_spec(s@) == Some(v as nat),
            None => parse_usize_spec(s@) is None || parse_usize_spec(s@)->0 > usize::MAX,
        },
{
    let n = s.unicode_len();
    let mut i: usize = 0;
    if n > 0 && s.get_char(0) == '+' {
        i = 1;
    }
    let ghost d: Seq<char> = strip_plus(s@);
    proof {
        assert(d =~= s@.skip(i as int));
    }
    if i == n {
        // No digits at all.
        return None;
    }
    let mut val: usize = 0;
    let ghost start: int = i as int;
    while i < n
        invariant
            n == s@.len(),
            0 <= start <= i <= n,
            d == strip_plus(s@),
            d == s@.skip(start),
            d.len() == n - start,
            all_digits(d.take(i - start)),
            val as nat == digits_val(d.take(i - start)),
        decreases n - i,
    {
        let c = s.get_char(i);
        let dv = digit_val_exec(c);
        proof {
            assert(s@.skip(start)[i - start] == s@[start + (i - start)]);
            assert(d[i - start] == s@[i as int]);
            assert(d.take(i - start + 1).drop_last() =~= d.take(i - start));
            assert(d.take(i - start + 1).last() == d[i - start]);
        }
        if dv >= 10 {
            // A non-digit character: the part can never read as a number.
            assert(!all_digits(d));
            return None;
        }
        let prod = match val.checked_mul(10) {
            Some(p) => p,
            None => {
                proof {
                    overflow_case(d, i - start + 1, (val as nat) * 10 + dv as nat);
                }
                return None;
            },
        };
        let next = match prod.checked_add(dv) {
            Some(v) => v,
            None => {
                proof {
                    overflow_case(d, i - start + 1, (val as nat) * 10 + dv as nat);
                }
                return None;
            },
        };
        val = next;
        i = i + 1;
    }
    proof {
        assert(d.take(n - start) =~= d);
    }
    Some(val)
}

/// When some prefix of the digit string reads beyond the machine word, so
/// does the whole.
proof fn overflow_case(d: Seq<char>, j: int, prefix_val: nat)
    requires
        0 <= j <= d.len(),
        digits_val(d.take(j)) == prefix_val,
        prefix_val > usize::MAX,
    ensures
        parse_usize_spec(d) is None || digits_val(d) > usize::MAX,
{
    lemma_digits_val_prefix(d, j);
}

impl DurationArg {
    /// Parse a duration argument: decimal parts separated by colons, most
    /// significant first (`S`, `M:S`, `H:M:S`, and so on), read in seconds.
    /// Fails exactly when some part is not a decimal number or the total
    /// does not fit the machine word.
    pub fn from_str(s: &str) -> (r: Result<DurationArg, DurationParseError>)
        ensures
            match r {
                Ok(dur) => duration_secs_spec(s@) == Some(dur.0 as nat),
                Err(_) => duration_secs_spec(s@) is None || duration_secs_spec(s@)->0
                    > usize::MAX,
            },
    {
        let parts = split_exec(s, ':');
        let ghost pv: Seq<Seq<char>> = parts.deep_view();
        let n = parts.len();
        let mut acc: usize = 0;
        let mut i: usize = 0;
        proof {
            assert(pv.take(0) =~= Seq::<Seq<char>>::empty());
        }
        while i < n
            invariant
                n == parts@.len(),
                pv == parts.deep_view(),
                pv == split_on(s@, ':'),
                pv.len() == n,
                i <= n,
                parts_val(pv.take(i as int)) == Some(acc as nat),
            decreases n - i,
        {
            proof {
                assert(pv.take(i as int + 1).drop_last() =~= pv.take(i as int));
                assert(pv.take(i as int + 1).last() == pv[i as int]);
                assert(parts@[i as int]@ == pv[i as int]);
            }
            let v = match parse_usize_part(parts[i].as_str()) {
                Some(v) => v,
                None => {
                    proof {
                        duration_overflow_case(pv, i as int + 1);
                    }
                    return Err(DurationParseError);
                },
            };
            let scaled = match acc.checked_mul(60) {
                Some(p) => p,
                None => {
                    proof {
                        assert(parts_val(pv.take(i as int + 1)) == Some(
                            (acc as nat) * 60 + (v as nat),
                        ));
                        duration_overflow_case(pv, i as int + 1);
                    }
                    return Err(DurationParseError);
                },
            };
            let next = match scaled.checked_add(v) {
                Some(t) => t,
                None => {
                    proof {
                        assert(parts_val(pv.take(i as int + 1)) == Some(
                            (acc as nat) * 60 + (v as nat),
                        ));
                        duration_overflow_case(pv, i as int + 1);
                    }
                    return Err(DurationParseError);
                },
            };
            acc = next;
            i = i + 1;
        }
        proof {
            assert(pv.take(n as int) =~= pv);
        }
        Ok(DurationArg(acc))
    }
}

/// The lower bound of a duration filter: the sought duration less the
/// allowed error, not below zero.
pub open spec fn dur_min(d: nat, range: nat) -> nat {
    if d >= range {
        (d - range) as nat
    } else {
        0
    }
}

/// The upper bound of a duration filter: the sought duration plus the
/// allowed error, capped at the machine word.
pub open spec fn dur_max(d: nat, range: nat) -> nat {
    if d + range <= usize::MAX {
        d + range
    } else {
        usize::MAX as nat
    }
}

/// The filter expressions a filter argument contributes, in the fixed
/// order: name prefix, tag, duration window.
pub open spec fn where_exprs_spec(arg: FilterArg) -> Seq<Seq<char>> {
    (if arg.name is Some {
        seq!["name GLOB ?"@]
    } else {
        Seq::<Seq<char>>::empty()
    }) + (if arg.tag is Some {
        seq!["tag=?"@]
    } else {
        Seq::<Seq<char>>::empty()
    }) + (if arg.duration is Some {
        seq!["duration BETWEEN ? AND ?"@]
    } else {
        Seq::<Seq<char>>::empty()
    })
}

/// The bound parameters a filter argument contributes, in the same order as
/// its expressions: the upper-cased name prefix with a trailing glob star,
/// the upper-cased tag, and the duration window's two bounds in decimal.
pub open spec fn where_params_spec(arg: FilterArg) -> Seq<Seq<char>> {
    (match arg.name {
        Some(n) => seq![upper_str(n@).push('*')],
        None => Seq::<Seq<char>>::empty(),
    }) + (match arg.tag {
        Some(t) => seq![upper_str(t@)],
        None => Seq::<Seq<char>>::empty(),
    }) + (match arg.duration {
        Some(d) => seq![
            dec_str(dur_min(d.0 as nat, arg.duration_range as nat)),
            dec_str(dur_max(d.0 as nat, arg.duration_range as nat)),
        ],
        None => Seq::<Seq<char>>::empty(),
    })
}

/// The where clause of a filter argument: its expressions joined with
/// ` AND ` behind `WHERE ` when there are any, and in either case ordered
/// by name.
pub open spec fn where_clause_spec(arg: FilterArg) -> Seq<char> {
    if where_exprs_spec(arg).len() == 0 {
        "ORDER BY name"@
    } else {
        "WHERE "@ + join_sep(where_exprs_spec(arg), " AND "@) + " ORDER BY name"@
    }
}

/// Build the retrieval filter fragment and its bound parameters from a
/// filter argument.
pub fn prepare_where_clause(arg: &FilterArg) -> (r: (String, Vec<String>))
    ensures
        r.0@ == where_clause_spec(*arg),
        r.1.deep_view() == where_params_spec(*arg),
{
    let mut exprs: Vec<&str> = Vec::new();
    let mut params: Vec<String> = Vec::new();
    match &arg.name {
        Some(name) => {
            let mut p = to_ascii_upper(name.as_str());
            push_char(&mut p, '*');
            exprs.push("name GLOB ?");
            params.push(p);
        },
        None => {},
    }
    proof {
        assert(exprs.deep_view() =~~= (if arg.name is Some {
            seq!["name GLOB ?"@]
        } else {
            Seq::<Seq<char>>::empty()
        }));
        assert(params.deep_view() =~~= (match arg.name {
            Some(n) => seq![upper_str(n@).push('*')],
            None => Seq::<Seq<char>>::empty(),
        }));
    }
    let ghost exprs1: Seq<Seq<char>> = exprs.deep_view();
    let ghost params1: Seq<Seq<char>> = params.deep_view();
    match &arg.tag {
        Some(tag) => {
            exprs.push("tag=?");
            params.push(to_ascii_upper(tag.as_str()));
        },
        None => {},
    }
    proof {
        assert(exprs.deep_view() =~~= exprs1 + (if arg.tag is Some {
            seq!["tag=?"@]
        } else {
            Seq::<Seq<char>>::empty()
        }));
        assert(params.deep_view() =~~= params1 + (match arg.tag {
            Some(t) => seq![upper_str(t@)],
            None => Seq::<Seq<char>>::empty(),
        }));
    }
    let ghost exprs2: Seq<Seq<char>> = exprs.deep_view();
    let ghost params2: Seq<Seq<char>> = params.deep_view();
    match &arg.duration {
        Some(d) => {
            let min = d.0.saturating_sub(arg.duration_range);
            let max = d.0.saturating_add(arg.duration_range);
            exprs.push("duration BETWEEN ? AND ?");
            params.push(u64_to_dec(min as u64));
            params.push(u64_to_dec(max as u64));
        },
        None => {},
    }
    proof {
        assert(exprs.deep_view() =~~= where_exprs_spec(*arg));
        assert(params.deep_view() =~~= where_params_spec(*arg));
    }
    let mut clause = String::new();
    if exprs.len() == 0 {
        clause.append("ORDER BY name");
    } else {
        clause.append("WHERE ");
        let ghost evs: Seq<Seq<char>> = exprs.deep_view();
        let n = exprs.len();
        let mut i: usize = 0;
        proof {
            assert(evs.take(0) =~= Seq::<Seq<char>>::empty());
        }
        while i < n
            invariant
                n == exprs@.len(),
                evs == exprs.deep_view(),
                evs.len() == n,
                i <= n,
                clause@ == "WHERE "@ + join_sep(evs.take(i as int), " AND "@),
            decreases n - i,
        {
            if i > 0 {
                clause.append(" AND ");
            }
            clause.append(exprs[i]);
            proof {
                let prev = evs.take(i as int);
                assert(evs.take(i as int + 1) =~= prev.push(evs[i as int]));
                assert(exprs@[i as int]@ == evs[i as int]);
                lemma_join_sep_push(prev, evs[i as int], " AND "@);
                assert(clause@ =~= "WHERE "@ + join_sep(evs.take(i as int + 1), " AND "@));
            }
            i = i + 1;
        }
        proof {
            assert(evs.take(n as int) =~= evs);
        }
        clause.append(" ORDER BY name");
    }
    (clause, params)
}

/// When some prefix of the part list fails to read, or reads beyond the
/// machine word, so does the whole.
proof fn duration_overflow_case(parts: Seq<Seq<char>>, j: int)
    requires
        0 <= j <= parts.len(),
        parts_val(parts.take(j)) is None || parts_val(parts.take(j))->0 > usize::MAX,
    ensures
        parts_val(parts) is None || parts_val(parts)->0 > usize::MAX,
{
    if parts_val(parts) is Some {
        lemma_parts_val_prefix(parts, j);
    }
}

} // verus!
