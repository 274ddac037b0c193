//! The parser turns raw message text into a candidate invocation:
//! a command token and the argument remainder. A message counts as a
//! command only when it starts with a configured mention form or literal
//! prefix; the remainder is split at the first occurring delimiter.
//! Case handling, whitespace trimming and prefix precedence are all
//! configuration-driven. The parser is pure and independent of the
//! registry's contents.

use vstd::prelude::*;

use crate::text::{
    copy_bytes,
    match_at,
    matches_at,
    sub_vec,
    trim_leading,
    trim_leading_ex,
    views,
};

verus! {

/// Parser configuration: mention forms and literal prefixes that make a
/// message a command, delimiters that separate the command token from
/// the arguments, and the case, precedence and whitespace rules.
pub struct ParserConfig {
    /// Mention forms that count as a prefix trigger.
    pub mentions: Vec<Vec<u8>>,
    /// Literal prefix strings.
    pub prefixes: Vec<Vec<u8>>,
    /// Delimiter substrings; the first occurrence in the text wins, and
    /// among delimiters matching at the same position the one listed
    /// first wins.
    pub delimiters: Vec<Vec<u8>>,
    /// Compare prefixes and command names ignoring ASCII case.
    pub case_insensitive: bool,
    /// Among several matching prefixes prefer the longest; otherwise the
    /// one listed first.
    pub longest_prefix_first: bool,
    /// Drop spaces after the prefix and around the delimiter.
    pub trim_whitespace: bool,
}

/// A parsed, not yet resolved command attempt.
pub struct Invocation {
    pub token: Vec<u8>,
    pub args: Vec<u8>,
}

impl ParserConfig {
    /// All trigger strings, mention forms first.
    pub open spec fn triggers(self) -> Seq<Seq<u8>> {
        views(self.mentions@) + views(self.prefixes@)
    }
}

/// The trigger chosen among the first `n` of `trigs`: its length, or
/// nothing when none matches at the start of `text`. A later entry
/// replaces an earlier match only when `longest` is set and it is
/// strictly longer.
pub open spec fn best_trigger_upto(
    trigs: Seq<Seq<u8>>,
    text: Seq<u8>,
    ci: bool,
    longest: bool,
    n: int,
) -> Option<int>
    decreases n,
{
    if n <= 0 {
        None
    } else {
        let prev = best_trigger_upto(trigs, text, ci, longest, n - 1);
        if matches_at(text, trigs[n - 1], 0, ci) {
            match prev {
                None => Some(trigs[n - 1].len() as int),
                Some(l) => if longest && trigs[n - 1].len() > l {
                    Some(trigs[n - 1].len() as int)
                } else {
                    Some(l)
                },
            }
        } else {
            prev
        }
    }
}

/// The first delimiter (by list order) matching at position `p`, among
/// the first `n` delimiters.
pub open spec fn delim_at_upto(delims: Seq<Seq<u8>>, text: Seq<u8>, p: int, n: int) -> Option<int>
    decreases n,
{
    if n <= 0 {
        None
    } else {
        match delim_at_upto(delims, text, p, n - 1) {
            Some(d) => Some(d),
            None => if matches_at(text, delims[n - 1], p, false) {
                Some(n - 1)
            } else {
                None
            },
        }
    }
}

/// The first position at or after `p` where some delimiter matches,
/// together with the delimiter chosen there.
pub open spec fn first_delim_from(delims: Seq<Seq<u8>>, text: Seq<u8>, p: int) -> Option<(int, int)>
    decreases text.len() - p,
{
    if p < 0 || p >= text.len() {
        None
    } else {
        match delim_at_upto(delims, text, p, delims.len() as int) {
            Some(d) => Some((p, d)),
            None => first_delim_from(delims, text, p + 1),
        }
    }
}

/// Splitting a text into a command token and an argument remainder: the
/// token runs up to the first delimiter occurrence and the remainder
/// follows it (trimmed when configured); without a delimiter the whole
/// text is the token and the remainder is empty.
pub open spec fn split_segment_spec(s: Seq<u8>, delims: Seq<Seq<u8>>, trim: bool) -> (Seq<u8>, Seq<
    u8,
>) {
    match first_delim_from(delims, s, 0) {
        Some((p, d)) => {
            let rest = s.skip(p + delims[d].len() as int);
            (s.take(p), if trim {
                trim_leading(rest)
            } else {
                rest
            })
        },
        None => (s, Seq::empty()),
    }
}

/// What the parser yields on `text`: nothing when no trigger matches,
/// else the token and remainder of the text behind the trigger.
pub open spec fn parse_spec(cfg: ParserConfig, text: Seq<u8>) -> Option<(Seq<u8>, Seq<u8>)> {
    match best_trigger_upto(
        cfg.triggers(),
        text,
        cfg.case_insensitive,
        cfg.longest_prefix_first,
        cfg.triggers().len() as int,
    ) {
        None => None,
        Some(l) => {
            let rest = text.skip(l);
            let rest2 = if cfg.trim_whitespace {
                trim_leading(rest)
            } else {
                rest
            };
            Some(split_segment_spec(rest2, views(cfg.delimiters@), cfg.trim_whitespace))
        },
    }
}

proof fn lemma_delim_at_persist(delims: Seq<Seq<u8>>, text: Seq<u8>, p: int, m: int, n: int)
    requires
        0 <= m <= n,
        delim_at_upto(delims, text, p, m) matches Some(_),
    ensures
        delim_at_upto(delims, text, p, n) == delim_at_upto(delims, text, p, m),
    decreases n,
{
    if n > m {
        lemma_delim_at_persist(delims, text, p, m, n - 1);
    }
}

/// The first delimiter of `list` matching `text` at position `p`.
fn delim_at(delims: &Vec<Vec<u8>>, text: &Vec<u8>, p: usize) -> (r: Option<usize>)
    ensures
        match r {
            Some(d) => d < delims@.len() && delim_at_upto(
                views(delims@),
                text@,
                p as int,
                delims@.len() as int,
            ) == Some(d as int),
            None => delim_at_upto(views(delims@), text@, p as int, delims@.len() as int) is None,
        },
{
    let n = delims.len();
    let mut d: usize = 0;
    while d < n
        invariant
            n == delims@.len(),
            d <= n,
            delim_at_upto(views(delims@), text@, p as int, d as int) is None,
        decreases n - d,
    {
        if match_at(text, &delims[d], p, false) {
            assert(views(delims@)[d as int] == delims@[d as int]@);
            assert(delim_at_upto(views(delims@), text@, p as int, d + 1) == Some(d as int));
            proof {
                lemma_delim_at_persist(views(delims@), text@, p as int, d + 1, n as int);
            }
            return Some(d);
        }
        assert(views(delims@)[d as int] == delims@[d as int]@);
        d += 1;
    }
    None
}

/// Split `s` at the first delimiter occurrence into the command token
/// and the argument remainder.
pub fn split_segment(s: &Vec<u8>, delims: &Vec<Vec<u8>>, trim: bool) -> (r: (Vec<u8>, Vec<u8>))
    ensures
        (r.0@, r.1@) == split_segment_spec(s@, views(delims@), trim),
{
    let n = s.len();
    let mut p: usize = 0;
    while p < n
        invariant
            n == s@.len(),
            p <= n,
            first_delim_from(views(delims@), s@, 0) == first_delim_from(views(delims@), s@, p as int),
        decreases n - p,
    {
        let found = delim_at(delims, s, p);
        if let Some(d) = found {
            let dlen = delims[d].len();
            assert(matches_at(s@, views(delims@)[d as int], p as int, false)) by {
                lemma_delim_match(views(delims@), s@, p as int, d as int, delims@.len() as int);
            }
            let tok = sub_vec(s, 0, p);
            let rest = sub_vec(s, p + dlen, n);
            assert(first_delim_from(views(delims@), s@, p as int) == Some((p as int, d as int)));
            assert(tok@ =~= s@.take(p as int));
            assert(rest@ =~= s@.skip(p + views(delims@)[d as int].len() as int));
            if trim {
                let rest2 = trim_leading_ex(&rest);
                return (tok, rest2);
            } else {
                return (tok, rest);
            }
        }
        p += 1;
    }
    let tok = copy_bytes(s);
    assert(first_delim_from(views(delims@), s@, p as int) is None);
    let empty: Vec<u8> = Vec::new();
    assert(empty@ =~= Seq::<u8>::empty());
    (tok, empty)
}

proof fn lemma_delim_match(delims: Seq<Seq<u8>>, text: Seq<u8>, p: int, d: int, n: int)
    requires
        0 <= n <= delims.len(),
        delim_at_upto(delims, text, p, n) == Some(d),
    ensures
        0 <= d < n,
        matches_at(text, delims[d], p, false),
    decreases n,
{
    if n > 0 {
        if delim_at_upto(delims, text, p, n - 1) is Some {
            lemma_delim_match(delims, text, p, d, n - 1);
        }
    }
}

/// The chosen trigger's length at the start of `text`, or nothing when
/// no mention form or prefix matches.
fn best_trigger(trigs: &Vec<Vec<u8>>, text: &Vec<u8>, ci: bool, longest: bool) -> (r: Option<usize>)
    ensures
        match r {
            Some(l) => l <= text@.len() && best_trigger_upto(
                views(trigs@),
                text@,
                ci,
                longest,
                trigs@.len() as int,
            ) == Some(l as int),
            None => best_trigger_upto(
                views(trigs@),
                text@,
                ci,
                longest,
                trigs@.len() as int,
            ) is None,
        },
{
    let n = trigs.len();
    let mut best: Option<usize> = None;
    let mut i: usize = 0;
    while i < n
        invariant
            n == trigs@.len(),
            i <= n,
            match best {
                Some(l) => l <= text@.len() && best_trigger_upto(
                    views(trigs@),
                    text@,
                    ci,
                    longest,
                    i as int,
                ) == Some(l as int),
                None => best_trigger_upto(views(trigs@), text@, ci, longest, i as int) is None,
            },
        decreases n - i,
    {
        assert(views(trigs@)[i as int] == trigs@[i as int]@);
        if match_at(text, &trigs[i], 0, ci) {
            let l = trigs[i].len();
            best = match best {
                None => Some(l),
                Some(b) => if longest && l > b {
                    Some(l)
                } else {
                    Some(b)
                },
            };
        }
        i += 1;
    }
    best
}

/// Parse a raw message: strip the chosen trigger, trim when configured,
/// and split the remainder into the command token and arguments.
/// Yields nothing when the message is not a command.
pub fn parse(cfg: &ParserConfig, text: &Vec<u8>) -> (r: Option<Invocation>)
    ensures
        match r {
            Some(inv) => parse_spec(*cfg, text@) == Some((inv.token@, inv.args@)),
            None => parse_spec(*cfg, text@) is None,
        },
{
    let mut trigs: Vec<Vec<u8>> = Vec::new();
    let mut i: usize = 0;
    while i < cfg.mentions.len()
        invariant
            i <= cfg.mentions@.len(),
            views(trigs@) =~= views(cfg.mentions@).take(i as int),
        decreases cfg.mentions@.len() - i,
    {
        let ghost t0 = trigs@;
        let x = copy_bytes(&cfg.mentions[i]);
        let ghost xv = x@;
        trigs.push(x);
        i += 1;
        proof {
            t0.lemma_push_map_commute(|v: Vec<u8>| v@, trigs@[trigs@.len() - 1]);
            assert(views(trigs@) =~= views(t0).push(xv));
            assert(views(cfg.mentions@)[i - 1] == cfg.mentions@[i - 1]@) by {
                assert(views(cfg.mentions@) == cfg.mentions@.map_values(|v: Vec<u8>| v@));
            }
            assert(views(trigs@) =~= views(cfg.mentions@).take(i as int));
        }
    }
    assert(views(cfg.mentions@).take(cfg.mentions@.len() as int) =~= views(cfg.mentions@));
    let mut j: usize = 0;
    while j < cfg.prefixes.len()
        invariant
            j <= cfg.prefixes@.len(),
            views(trigs@) =~= views(cfg.mentions@) + views(cfg.prefixes@).take(j as int),
        decreases cfg.prefixes@.len() - j,
    {
        let ghost t0 = trigs@;
        let x = copy_bytes(&cfg.prefixes[j]);
        let ghost xv = x@;
        trigs.push(x);
        j += 1;
        proof {
            t0.lemma_push_map_commute(|v: Vec<u8>| v@, trigs@[trigs@.len() - 1]);
            assert(views(trigs@) =~= views(t0).push(xv));
            assert(views(cfg.prefixes@)[j - 1] == cfg.prefixes@[j - 1]@) by {
                assert(views(cfg.prefixes@) == cfg.prefixes@.map_values(|v: Vec<u8>| v@));
            }
            assert(views(trigs@) =~= views(cfg.mentions@) + views(cfg.prefixes@).take(j as int));
        }
    }
    assert(views(trigs@) =~= cfg.triggers());
    let chosen = best_trigger(&trigs, text, cfg.case_insensitive, cfg.longest_prefix_first);
    match chosen {
        None => None,
        Some(l) => {
            let rest = sub_vec(text, l, text.len());
            assert(rest@ =~= text@.skip(l as int));
            let rest2 = if cfg.trim_whitespace {
                trim_leading_ex(&rest)
            } else {
                rest
            };
            let (token, args) = split_segment(&rest2, &cfg.delimiters, cfg.trim_whitespace);
            Some(Invocation { token, args })
        },
    }
}

} // verus!
