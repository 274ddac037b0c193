//! Formatting of a guild's role listing: the transport fetches the role
//! names; this module drops the leading built-in role (the implicit
//! everyone role that heads the fetched list) and joins the rest, one
//! role per line, for the reply body.

use vstd::prelude::*;

use crate::text::views;

verus! {

/// `names` joined with a newline between adjacent entries.
pub open spec fn join_lines(names: Seq<Seq<u8>>) -> Seq<u8>
    decreases names.len(),
{
    if names.len() <= 0 {
        Seq::empty()
    } else if names.len() == 1 {
        names[0]
    } else {
        join_lines(names.drop_last()) + seq![10u8] + names[names.len() - 1]
    }
}

/// The reply body of the role-listing command: every fetched role name
/// but the first, one per line. The fetched list is never empty (its
/// head is the implicit everyone role).
pub fn role_list_body(names: &Vec<Vec<u8>>) -> (r: Vec<u8>)
    requires
        names@.len() >= 1,
    ensures
        r@ == join_lines(views(names@).skip(1)),
{
    let n = names.len();
    let mut out: Vec<u8> = Vec::new();
    let mut i: usize = 1;
    assert(views(names@).skip(1).take(0) =~= Seq::<Seq<u8>>::empty());
    while i < n
        invariant
            1 <= i <= n,
            n == names@.len(),
            out@ == join_lines(views(names@).skip(1).take(i - 1)),
        decreases n - i,
    {
        if i > 1 {
            out.push(10);
        }
        let ghost before = out@;
        let mut j: usize = 0;
        let m = names[i].len();
        while j < m
            invariant
                i < n,
                n == names@.len(),
                m == names@[i as int]@.len(),
                j <= m,
                out@ == before + names@[i as int]@.take(j as int),
            decreases m - j,
        {
            out.push(names[i][j]);
            j += 1;
            assert(out@ =~= before + names@[i as int]@.take(j as int));
        }
        assert(names@[i as int]@.take(m as int) =~= names@[i as int]@);
        proof {
            let s = views(names@).skip(1);
            assert(views(names@)[i as int] == names@[i as int]@) by {
                assert(views(names@) == names@.map_values(|v: Vec<u8>| v@));
            }
            assert(s.take(i - 1 + 1).drop_last() =~= s.take(i - 1));
            assert(s.take(i as int)[i - 1] == names@[i as int]@);
            if i == 1 {
                assert(join_lines(s.take(1)) == s.take(1)[0]);
                assert(out@ =~= join_lines(s.take(i as int)));
            } else {
                assert(join_lines(s.take(i as int)) == join_lines(s.take(i - 1)) + seq![10u8]
                    + s.take(i as int)[i - 1]);
                assert(out@ =~= join_lines(s.take(i as int)));
            }
        }
        i += 1;
    }
    assert(views(names@).skip(1).take(n - 1) =~= views(names@).skip(1));
    out
}

} // verus!
