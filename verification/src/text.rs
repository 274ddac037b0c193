//! Byte-string utilities shared by the parser, the registry and the help
//! generator: ASCII case folding, case-aware equality, substring matching
//! at a position, subsequence extraction and leading-space trimming.

use vstd::prelude::*;

verus! {

/// Lower-cases one ASCII byte; every other byte is unchanged.
pub open spec fn lower_byte(c: u8) -> u8 {
    if 65 <= c && c <= 90 {
        (c + 32) as u8
    } else {
        c
    }
}

/// ASCII case folding of a whole byte sequence.
pub open spec fn fold_seq(s: Seq<u8>) -> Seq<u8> {
    s.map_values(|c: u8| lower_byte(c))
}

/// Equality of two byte sequences under the configured case rule:
/// folded equality when `ci` (case-insensitive) is set, exact otherwise.
pub open spec fn bytes_match(a: Seq<u8>, b: Seq<u8>, ci: bool) -> bool {
    if ci {
        fold_seq(a) == fold_seq(b)
    } else {
        a == b
    }
}

/// The views of a sequence of byte vectors.
pub open spec fn views(s: Seq<Vec<u8>>) -> Seq<Seq<u8>> {
    s.map_values(|v: Vec<u8>| v@)
}

/// `pat` occurs in `text` starting at position `i`.
pub open spec fn matches_at(text: Seq<u8>, pat: Seq<u8>, i: int, ci: bool) -> bool {
    0 <= i && i + pat.len() <= text.len() && bytes_match(
        text.subrange(i, i + pat.len() as int),
        pat,
        ci,
    )
}

/// `s` with every leading space byte removed.
pub open spec fn trim_leading(s: Seq<u8>) -> Seq<u8>
    decreases s.len(),
{
    if s.len() > 0 && s[0] == 32 {
        trim_leading(s.drop_first())
    } else {
        s
    }
}

pub fn lower_byte_ex(c: u8) -> (r: u8)
    ensures
        r == lower_byte(c),
{
    if 65 <= c && c <= 90 {
        c + 32
    } else {
        c
    }
}

pub fn bytes_equal(a: &Vec<u8>, b: &Vec<u8>, ci: bool) -> (r: bool)
    ensures
        r == bytes_match(a@, b@, ci),
{
    if a.len() != b.len() {
        assert(fold_seq(a@).len() == a@.len());
        assert(fold_seq(b@).len() == b@.len());
        return false;
    }
    let n = a.len();
    let mut i: usize = 0;
    while i < n
        invariant
            n == a@.len(),
            n == b@.len(),
            i <= n,
            forall|j: int|
                0 <= j < i ==> (if ci {
                    lower_byte(a@[j]) == lower_byte(b@[j])
                } else {
                    a@[j] == b@[j]
                }),
        decreases n - i,
    {
        let x = if ci {
            lower_byte_ex(a[i])
        } else {
            a[i]
        };
        let y = if ci {
            lower_byte_ex(b[i])
        } else {
            b[i]
        };
        if x != y {
            if ci {
                assert(fold_seq(a@)[i as int] != fold_seq(b@)[i as int]);
            } else {
                assert(a@[i as int] != b@[i as int]);
            }
            return false;
        }
        i += 1;
    }
    if ci {
        assert(fold_seq(a@) =~= fold_seq(b@));
    } else {
        assert(a@ =~= b@);
    }
    true
}

pub fn match_at(text: &Vec<u8>, pat: &Vec<u8>, i: usize, ci: bool) -> (r: bool)
    ensures
        r == matches_at(text@, pat@, i as int, ci),
{
    if i > text.len() || pat.len() > text.len() - i {
        return false;
    }
    let n = pat.len();
    let m = text.len();
    let mut j: usize = 0;
    while j < n
        invariant
            n == pat@.len(),
            m == text@.len(),
            i + n <= m,
            j <= n,
            forall|k: int|
                0 <= k < j ==> (if ci {
                    lower_byte(text@[i + k]) == lower_byte(pat@[k])
                } else {
                    text@[i + k] == pat@[k]
                }),
        decreases n - j,
    {
        let x = if ci {
            lower_byte_ex(text[i + j])
        } else {
            text[i + j]
        };
        let y = if ci {
            lower_byte_ex(pat[j])
        } else {
            pat[j]
        };
        if x != y {
            let ghost sub = text@.subrange(i as int, i + pat@.len() as int);
            assert(sub[j as int] == text@[i + j]);
            if ci {
                assert(fold_seq(sub)[j as int] != fold_seq(pat@)[j as int]);
            } else {
                assert(sub[j as int] != pat@[j as int]);
            }
            return false;
        }
        j += 1;
    }
    let ghost sub = text@.subrange(i as int, i + pat@.len() as int);
    assert(forall|k: int| 0 <= k < n ==> sub[k] == text@[i + k]);
    if ci {
        assert(fold_seq(sub) =~= fold_seq(pat@));
    } else {
        assert(sub =~= pat@);
    }
    true
}

/// A fresh vector holding `v[a..b]`.
pub fn sub_vec(v: &Vec<u8>, a: usize, b: usize) -> (r: Vec<u8>)
    requires
        a <= b <= v@.len(),
    ensures
        r@ == v@.subrange(a as int, b as int),
{
    let mut r: Vec<u8> = Vec::new();
    let mut i: usize = a;
    while i < b
        invariant
            a <= i <= b <= v@.len(),
            r@ == v@.subrange(a as int, i as int),
        decreases b - i,
    {
        r.push(v[i]);
        i += 1;
        assert(r@ =~= v@.subrange(a as int, i as int));
    }
    r
}

/// A fresh copy of `v` with the same contents.
pub fn copy_bytes(v: &Vec<u8>) -> (r: Vec<u8>)
    ensures
        r@ == v@,
{
    let r = sub_vec(v, 0, v.len());
    assert(v@.subrange(0, v@.len() as int) =~= v@);
    r
}

/// A fresh vector holding `v` without its leading space bytes.
pub fn trim_leading_ex(v: &Vec<u8>) -> (r: Vec<u8>)
    ensures
        r@ == trim_leading(v@),
{
    let n = v.len();
    let mut i: usize = 0;
    assert(v@.skip(0) =~= v@);
    while i < n && v[i] == 32
        invariant
            n == v@.len(),
            i <= n,
            trim_leading(v@) == trim_leading(v@.skip(i as int)),
        decreases n - i,
    {
        assert(v@.skip(i as int)[0] == v@[i as int]);
        assert(v@.skip(i as int).drop_first() =~= v@.skip(i + 1));
        i += 1;
    }
    assert(trim_leading(v@.skip(i as int)) == v@.skip(i as int)) by {
        if i < n {
            assert(v@.skip(i as int)[0] == v@[i as int]);
        }
    }
    let r = sub_vec(v, i, n);
    assert(v@.subrange(i as int, n as int) =~= v@.skip(i as int));
    r
}


/// The decimal digit string of `n`, most significant digit first.
pub open spec fn decimal_digits(n: nat) -> Seq<u8>
    decreases n,
{
    if n < 10 {
        seq![(48 + n) as u8]
    } else {
        decimal_digits(n / 10).push((48 + n % 10) as u8)
    }
}

/// Format `n` in decimal.
pub fn to_decimal(n: u64) -> (r: Vec<u8>)
    ensures
        r@ == decimal_digits(n as nat),
    decreases n,
{
    if n < 10 {
        let mut v: Vec<u8> = Vec::new();
        v.push(48 + n as u8);
        assert(v@ =~= seq![(48 + n as nat) as u8]);
        v
    } else {
        let mut v = to_decimal(n / 10);
        v.push(48 + (n % 10) as u8);
        v
    }
}

} // verus!
