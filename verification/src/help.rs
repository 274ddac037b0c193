//! The help generator: renders the registry as a listing of groups and
//! commands, omitting or masking commands the requester lacks
//! permissions or roles for, per the configured policy; and answers a
//! help request for an unknown command name with a "not found" message
//! carrying a fuzzy suggestion, found by string edit distance under a
//! configured threshold.

use vstd::prelude::*;

use crate::registry::{token_k, Command, Registry};
use crate::text::copy_bytes;

verus! {

/// How a command the requester may not use is shown.
#[derive(Clone, Copy, PartialEq, Eq, Structural, Debug)]
pub enum Visibility {
    /// Omit the command entirely.
    Hide,
    /// Show a placeholder line in its place.
    ShowPlaceholder,
}

/// Rendering policy of the help generator.
pub struct HelpConfig {
    /// Treatment of commands needing a permission (owner-only) the
    /// requester lacks.
    pub lacking_permissions: Visibility,
    /// Treatment of commands needing a role the requester lacks.
    pub lacking_role: Visibility,
    /// A suggestion is offered only within this edit distance.
    pub max_suggestion_distance: u64,
}

/// Who asks for help.
pub struct Requester {
    pub roles: Vec<u64>,
    pub is_owner: bool,
}

/// The requester holds role `r`.
pub open spec fn has_role(req: Requester, r: u64) -> bool {
    exists|i: int| 0 <= i < req.roles@.len() && req.roles@[i] == r
}

/// The requester passes the command's permission requirement.
pub open spec fn perm_ok(c: Command, req: Requester) -> bool {
    !c.owner_only || req.is_owner
}

/// The requester passes the command's role requirement.
pub open spec fn role_ok(c: Command, req: Requester) -> bool {
    match c.required_role {
        Some(r) => has_role(req, r),
        None => true,
    }
}

/// The aliases rendered after a command name: `/alias` for each.
pub open spec fn aliases_part(aliases: Seq<Vec<u8>>, n: int) -> Seq<u8>
    decreases n,
{
    if n <= 0 {
        Seq::empty()
    } else {
        aliases_part(aliases, n - 1) + seq![47u8] + aliases[n - 1]@
    }
}

/// One command's help line:
/// `  name/alias... - summary [bucket: name]` and a newline.
pub open spec fn cmd_line(c: Command) -> Seq<u8> {
    seq![32u8, 32u8] + c.name@ + aliases_part(c.aliases@, c.aliases@.len() as int) + seq![
        32u8,
        45u8,
        32u8,
    ] + c.summary@ + (match c.bucket {
        Some(b) => seq![32u8, 91u8, 98u8, 117u8, 99u8, 107u8, 101u8, 116u8, 58u8, 32u8] + b@
            + seq![93u8],
        None => Seq::empty(),
    }) + seq![10u8]
}

/// The placeholder line shown for a masked command.
pub open spec fn placeholder_line() -> Seq<u8> {
    seq![32u8, 32u8, 40u8, 104u8, 105u8, 100u8, 100u8, 101u8, 110u8, 41u8, 10u8]
}

/// What one command contributes to the listing: its line when the
/// requester may use it; otherwise nothing or a placeholder, as the
/// policy for the failed check dictates (permissions are checked before
/// roles).
pub open spec fn cmd_render(c: Command, req: Requester, hc: HelpConfig) -> Seq<u8> {
    if !perm_ok(c, req) {
        match hc.lacking_permissions {
            Visibility::Hide => Seq::empty(),
            Visibility::ShowPlaceholder => placeholder_line(),
        }
    } else if !role_ok(c, req) {
        match hc.lacking_role {
            Visibility::Hide => Seq::empty(),
            Visibility::ShowPlaceholder => placeholder_line(),
        }
    } else {
        cmd_line(c)
    }
}

/// The first `n` commands' contributions, in order.
pub open spec fn cmds_render(cmds: Seq<Command>, req: Requester, hc: HelpConfig, n: int) -> Seq<u8>
    decreases n,
{
    if n <= 0 {
        Seq::empty()
    } else {
        cmds_render(cmds, req, hc, n - 1) + cmd_render(cmds[n - 1], req, hc)
    }
}

/// One group's section: `name:` on its own line, then its commands.
pub open spec fn group_render(g: crate::registry::CommandGroup, req: Requester, hc: HelpConfig) -> Seq<
    u8,
> {
    g.name@ + seq![58u8, 10u8] + cmds_render(g.commands@, req, hc, g.commands@.len() as int)
}

/// The first `n` groups' sections, in order.
pub open spec fn groups_render(groups: Seq<crate::registry::CommandGroup>, req: Requester, hc: HelpConfig, n: int) -> Seq<u8>
    decreases n,
{
    if n <= 0 {
        Seq::empty()
    } else {
        groups_render(groups, req, hc, n - 1) + group_render(groups[n - 1], req, hc)
    }
}

/// Append `v` to `out`.
fn append_bytes(out: &mut Vec<u8>, v: &Vec<u8>)
    ensures
        final(out)@ == old(out)@ + v@,
{
    let ghost before = out@;
    let n = v.len();
    let mut i: usize = 0;
    assert(out@ =~= before + v@.take(0));
    while i < n
        invariant
            n == v@.len(),
            i <= n,
            out@ == before + v@.take(i as int),
        decreases n - i,
    {
        out.push(v[i]);
        i += 1;
        assert(out@ =~= before + v@.take(i as int));
    }
    assert(v@.take(n as int) =~= v@);
}

/// The requester holds role `r`.
fn has_role_ex(req: &Requester, r: u64) -> (b: bool)
    ensures
        b == has_role(*req, r),
{
    let n = req.roles.len();
    let mut i: usize = 0;
    while i < n
        invariant
            n == req.roles@.len(),
            i <= n,
            forall|j: int| 0 <= j < i ==> req.roles@[j] != r,
        decreases n - i,
    {
        if req.roles[i] == r {
            return true;
        }
        i += 1;
    }
    false
}

/// Render one command's contribution into `out`.
#[verifier::rlimit(50)]
fn render_cmd(out: &mut Vec<u8>, c: &Command, req: &Requester, hc: &HelpConfig)
    ensures
        final(out)@ == old(out)@ + cmd_render(*c, *req, *hc),
{
    let allowed_perm = !c.owner_only || req.is_owner;
    if !allowed_perm {
        match hc.lacking_permissions {
            Visibility::Hide => {
                assert(final(out)@ =~= old(out)@ + Seq::<u8>::empty());
            },
            Visibility::ShowPlaceholder => {
                push_placeholder(out);
            },
        }
        return ;
    }
    let allowed_role = match &c.required_role {
        Some(r) => has_role_ex(req, *r),
        None => true,
    };
    if !allowed_role {
        match hc.lacking_role {
            Visibility::Hide => {
                assert(final(out)@ =~= old(out)@ + Seq::<u8>::empty());
            },
            Visibility::ShowPlaceholder => {
                push_placeholder(out);
            },
        }
        return ;
    }
    let ghost start = out@;
    out.push(32);
    out.push(32);
    append_bytes(out, &c.name);
    let ghost with_name = out@;
    assert(with_name =~= start + seq![32u8, 32u8] + c.name@);
    let n = c.aliases.len();
    let mut i: usize = 0;
    assert(aliases_part(c.aliases@, 0) =~= Seq::<u8>::empty());
    assert(out@ =~= with_name + aliases_part(c.aliases@, 0));
    while i < n
        invariant
            n == c.aliases@.len(),
            i <= n,
            out@ == with_name + aliases_part(c.aliases@, i as int),
        decreases n - i,
    {
        out.push(47);
        append_bytes(out, &c.aliases[i]);
        i += 1;
        assert(out@ =~= with_name + aliases_part(c.aliases@, i as int));
    }
    out.push(32);
    out.push(45);
    out.push(32);
    append_bytes(out, &c.summary);
    let ghost with_summary = out@;
    assert(with_summary =~= with_name + aliases_part(c.aliases@, n as int) + seq![
        32u8,
        45u8,
        32u8,
    ] + c.summary@);
    match &c.bucket {
        Some(b) => {
            out.push(32);
            out.push(91);
            out.push(98);
            out.push(117);
            out.push(99);
            out.push(107);
            out.push(101);
            out.push(116);
            out.push(58);
            out.push(32);
            append_bytes(out, b);
            out.push(93);
            out.push(10);
            assert(final(out)@ =~= old(out)@ + cmd_render(*c, *req, *hc));
        },
        None => {
            out.push(10);
            assert(final(out)@ =~= old(out)@ + cmd_render(*c, *req, *hc));
        },
    }
}

/// Append the placeholder line.
fn push_placeholder(out: &mut Vec<u8>)
    ensures
        final(out)@ == old(out)@ + placeholder_line(),
{
    out.push(32);
    out.push(32);
    out.push(40);
    out.push(104);
    out.push(105);
    out.push(100);
    out.push(100);
    out.push(101);
    out.push(110);
    out.push(41);
    out.push(10);
    assert(final(out)@ =~= old(out)@ + placeholder_line());
}

/// Render the whole registry for a requester: each group's section in
/// registration order, commands filtered or masked per the policy.
pub fn render(reg: &Registry, req: &Requester, hc: &HelpConfig) -> (r: Vec<u8>)
    ensures
        r@ == groups_render(reg.groups@, *req, *hc, reg.groups@.len() as int),
{
    let mut out: Vec<u8> = Vec::new();
    let gn = reg.groups.len();
    let mut gi: usize = 0;
    assert(out@ =~= groups_render(reg.groups@, *req, *hc, 0));
    while gi < gn
        invariant
            gn == reg.groups@.len(),
            gi <= gn,
            out@ == groups_render(reg.groups@, *req, *hc, gi as int),
        decreases gn - gi,
    {
        let ghost at_group = out@;
        append_bytes(&mut out, &reg.groups[gi].name);
        out.push(58);
        out.push(10);
        let ghost with_header = out@;
        assert(with_header =~= at_group + reg.groups@[gi as int].name@ + seq![58u8, 10u8]);
        let cn = reg.groups[gi].commands.len();
        let mut ci: usize = 0;
        assert(out@ =~= with_header + cmds_render(reg.groups@[gi as int].commands@, *req, *hc, 0));
        while ci < cn
            invariant
                gi < gn,
                gn == reg.groups@.len(),
                cn == reg.groups@[gi as int].commands@.len(),
                ci <= cn,
                out@ == with_header + cmds_render(
                    reg.groups@[gi as int].commands@,
                    *req,
                    *hc,
                    ci as int,
                ),
            decreases cn - ci,
        {
            render_cmd(&mut out, &reg.groups[gi].commands[ci], req, hc);
            ci += 1;
            assert(out@ =~= with_header + cmds_render(
                reg.groups@[gi as int].commands@,
                *req,
                *hc,
                ci as int,
            ));
        }
        gi += 1;
        assert(out@ =~= groups_render(reg.groups@, *req, *hc, gi as int));
    }
    out
}

/// Edit distance between `a` and `b`: the least number of single-byte
/// insertions, deletions and substitutions turning one into the other.
pub open spec fn edit_distance(a: Seq<u8>, b: Seq<u8>) -> nat
    decreases a.len(), b.len(),
{
    if a.len() == 0 {
        b.len()
    } else if b.len() == 0 {
        a.len()
    } else if a[0] == b[0] {
        edit_distance(a.drop_first(), b.drop_first())
    } else {
        let del = edit_distance(a.drop_first(), b);
        let ins = edit_distance(a, b.drop_first());
        let sub = edit_distance(a.drop_first(), b.drop_first());
        1 + if del <= ins && del <= sub {
            del
        } else if ins <= sub {
            ins
        } else {
            sub
        }
    }
}

proof fn lemma_edit_distance_bound(a: Seq<u8>, b: Seq<u8>)
    ensures
        edit_distance(a, b) <= a.len() + b.len(),
    decreases a.len(), b.len(),
{
    if a.len() == 0 || b.len() == 0 {
    } else {
        lemma_edit_distance_bound(a.drop_first(), b.drop_first());
        lemma_edit_distance_bound(a.drop_first(), b);
        lemma_edit_distance_bound(a, b.drop_first());
    }
}

fn edit_distance_at(a: &Vec<u8>, b: &Vec<u8>, i: usize, j: usize) -> (r: usize)
    requires
        i <= a@.len(),
        j <= b@.len(),
        a@.len() + b@.len() < usize::MAX,
    ensures
        r == edit_distance(a@.skip(i as int), b@.skip(j as int)),
    decreases a@.len() - i, b@.len() - j,
{
    let ghost sa = a@.skip(i as int);
    let ghost sb = b@.skip(j as int);
    if i == a.len() {
        assert(sa.len() == 0);
        return b.len() - j;
    }
    if j == b.len() {
        assert(sb.len() == 0);
        return a.len() - i;
    }
    assert(sa[0] == a@[i as int]);
    assert(sb[0] == b@[j as int]);
    assert(sa.drop_first() =~= a@.skip(i + 1));
    assert(sb.drop_first() =~= b@.skip(j + 1));
    if a[i] == b[j] {
        edit_distance_at(a, b, i + 1, j + 1)
    } else {
        let del = edit_distance_at(a, b, i + 1, j);
        let ins = edit_distance_at(a, b, i, j + 1);
        let sub = edit_distance_at(a, b, i + 1, j + 1);
        proof {
            lemma_edit_distance_bound(a@.skip(i + 1), b@.skip(j as int));
        }
        let m = if del <= ins && del <= sub {
            del
        } else if ins <= sub {
            ins
        } else {
            sub
        };
        1 + m
    }
}

/// Edit distance between two byte strings.
pub fn edit_distance_ex(a: &Vec<u8>, b: &Vec<u8>) -> (r: usize)
    requires
        a@.len() + b@.len() < usize::MAX,
    ensures
        r == edit_distance(a@, b@),
{
    let r = edit_distance_at(a, b, 0, 0);
    assert(a@.skip(0) =~= a@);
    assert(b@.skip(0) =~= b@);
    r
}

/// `t` is a name or alias reachable in the registry.
pub open spec fn known_name(reg: Registry, t: Seq<u8>) -> bool {
    exists|gi: int, ci: int, k: int|
        0 <= gi < reg.groups@.len() && 0 <= ci < reg.groups@[gi].commands@.len() && 0 <= k < 1
            + reg.groups@[gi].commands@[ci].aliases@.len() && token_k(
            reg.groups@[gi].commands@[ci],
            k,
        ) == t
}

/// `t` occurs (as a view) among the vectors of `s`.
pub open spec fn holds_token(s: Seq<Vec<u8>>, t: Seq<u8>) -> bool {
    exists|i: int| 0 <= i < s.len() && s[i]@ == t
}

proof fn lemma_holds_push(s: Seq<Vec<u8>>, x: Vec<u8>, t: Seq<u8>)
    requires
        holds_token(s, t),
    ensures
        holds_token(s.push(x), t),
{
    let i = choose|i: int| 0 <= i < s.len() && s[i]@ == t;
    assert(s.push(x)[i]@ == t);
}

/// Collect every name and alias of the registry, in order.
fn all_names(reg: &Registry) -> (r: Vec<Vec<u8>>)
    ensures
        forall|i: int| 0 <= i < r@.len() ==> known_name(*reg, #[trigger] r@[i]@),
        forall|t: Seq<u8>| known_name(*reg, t) ==> holds_token(r@, t),
{
    let mut out: Vec<Vec<u8>> = Vec::new();
    let gn = reg.groups.len();
    let mut gi: usize = 0;
    while gi < gn
        invariant
            gn == reg.groups@.len(),
            gi <= gn,
            forall|i: int| 0 <= i < out@.len() ==> known_name(*reg, #[trigger] out@[i]@),
            forall|gi2: int, ci2: int, k2: int|
                0 <= gi2 < gi && 0 <= ci2 < reg.groups@[gi2].commands@.len() && 0 <= k2 < 1
                    + reg.groups@[gi2].commands@[ci2].aliases@.len() ==> holds_token(
                    out@,
                    #[trigger] token_k(reg.groups@[gi2].commands@[ci2], k2),
                ),
        decreases gn - gi,
    {
        let cn = reg.groups[gi].commands.len();
        let mut ci: usize = 0;
        while ci < cn
            invariant
                gi < gn,
                gn == reg.groups@.len(),
                cn == reg.groups@[gi as int].commands@.len(),
                ci <= cn,
                forall|i: int| 0 <= i < out@.len() ==> known_name(*reg, #[trigger] out@[i]@),
                forall|gi2: int, ci2: int, k2: int|
                    0 <= gi2 < gi && 0 <= ci2 < reg.groups@[gi2].commands@.len() && 0 <= k2 < 1
                        + reg.groups@[gi2].commands@[ci2].aliases@.len() ==> holds_token(
                        out@,
                        #[trigger] token_k(reg.groups@[gi2].commands@[ci2], k2),
                    ),
                forall|ci2: int, k2: int|
                    0 <= ci2 < ci && 0 <= k2 < 1 + reg.groups@[gi as int].commands@[
                        ci2
                    ].aliases@.len() ==> holds_token(
                        out@,
                        #[trigger] token_k(reg.groups@[gi as int].commands@[ci2], k2),
                    ),
            decreases cn - ci,
        {
            let an = reg.groups[gi].commands[ci].aliases.len();
            let ghost o0 = out@;
            out.push(copy_bytes(&reg.groups[gi].commands[ci].name));
            proof {
                assert(out@[out@.len() - 1]@ == token_k(
                    reg.groups@[gi as int].commands@[ci as int],
                    0,
                ));
                assert(known_name(*reg, out@[out@.len() - 1]@));
                assert(holds_token(out@, token_k(reg.groups@[gi as int].commands@[ci as int], 0)));
                assert forall|gi2: int, ci2: int, k2: int|
                    0 <= gi2 < gi && 0 <= ci2 < reg.groups@[gi2].commands@.len() && 0 <= k2 < 1
                        + reg.groups@[gi2].commands@[ci2].aliases@.len() implies holds_token(
                    out@,
                    #[trigger] token_k(reg.groups@[gi2].commands@[ci2], k2),
                ) by {
                    lemma_holds_push(
                        o0,
                        out@[out@.len() - 1],
                        token_k(reg.groups@[gi2].commands@[ci2], k2),
                    );
                }
                assert forall|ci2: int, k2: int|
                    0 <= ci2 < ci && 0 <= k2 < 1 + reg.groups@[gi as int].commands@[
                        ci2
                    ].aliases@.len() implies holds_token(
                    out@,
                    #[trigger] token_k(reg.groups@[gi as int].commands@[ci2], k2),
                ) by {
                    lemma_holds_push(
                        o0,
                        out@[out@.len() - 1],
                        token_k(reg.groups@[gi as int].commands@[ci2], k2),
                    );
                }
            }
            let mut k: usize = 0;
            while k < an
                invariant
                    gi < gn,
                    ci < cn,
                    gn == reg.groups@.len(),
                    cn == reg.groups@[gi as int].commands@.len(),
                    an == reg.groups@[gi as int].commands@[ci as int].aliases@.len(),
                    k <= an,
                    forall|i: int| 0 <= i < out@.len() ==> known_name(*reg, #[trigger] out@[i]@),
                    forall|gi2: int, ci2: int, k2: int|
                        0 <= gi2 < gi && 0 <= ci2 < reg.groups@[gi2].commands@.len() && 0 <= k2 < 1
                            + reg.groups@[gi2].commands@[ci2].aliases@.len() ==> holds_token(
                            out@,
                            #[trigger] token_k(reg.groups@[gi2].commands@[ci2], k2),
                        ),
                    forall|ci2: int, k2: int|
                        0 <= ci2 < ci && 0 <= k2 < 1 + reg.groups@[gi as int].commands@[
                            ci2
                        ].aliases@.len() ==> holds_token(
                            out@,
                            #[trigger] token_k(reg.groups@[gi as int].commands@[ci2], k2),
                        ),
                    forall|k2: int|
                        0 <= k2 < 1 + k ==> holds_token(
                            out@,
                            #[trigger] token_k(reg.groups@[gi as int].commands@[ci as int], k2),
                        ),
                decreases an - k,
            {
                let ghost o1 = out@;
                out.push(copy_bytes(&reg.groups[gi].commands[ci].aliases[k]));
                k += 1;
                proof {
                    assert(out@[out@.len() - 1]@ == token_k(
                        reg.groups@[gi as int].commands@[ci as int],
                        k as int,
                    ));
                    assert(known_name(*reg, out@[out@.len() - 1]@));
                    assert(holds_token(
                        out@,
                        token_k(reg.groups@[gi as int].commands@[ci as int], k as int),
                    ));
                    assert forall|gi2: int, ci2: int, k2: int|
                        0 <= gi2 < gi && 0 <= ci2 < reg.groups@[gi2].commands@.len() && 0 <= k2 < 1
                            + reg.groups@[gi2].commands@[ci2].aliases@.len() implies holds_token(
                        out@,
                        #[trigger] token_k(reg.groups@[gi2].commands@[ci2], k2),
                    ) by {
                        lemma_holds_push(
                            o1,
                            out@[out@.len() - 1],
                            token_k(reg.groups@[gi2].commands@[ci2], k2),
                        );
                    }
                    assert forall|ci2: int, k2: int|
                        0 <= ci2 < ci && 0 <= k2 < 1 + reg.groups@[gi as int].commands@[
                            ci2
                        ].aliases@.len() implies holds_token(
                        out@,
                        #[trigger] token_k(reg.groups@[gi as int].commands@[ci2], k2),
                    ) by {
                        lemma_holds_push(
                            o1,
                            out@[out@.len() - 1],
                            token_k(reg.groups@[gi as int].commands@[ci2], k2),
                        );
                    }
                    assert forall|k2: int| 0 <= k2 < 1 + k implies holds_token(
                        out@,
                        #[trigger] token_k(reg.groups@[gi as int].commands@[ci as int], k2),
                    ) by {
                        if k2 < k {
                            lemma_holds_push(
                                o1,
                                out@[out@.len() - 1],
                                token_k(reg.groups@[gi as int].commands@[ci as int], k2),
                            );
                        }
                    }
                }
            }
            ci += 1;
            assert forall|ci2: int, k2: int|
                0 <= ci2 < ci && 0 <= k2 < 1 + reg.groups@[gi as int].commands@[
                    ci2
                ].aliases@.len() implies holds_token(
                out@,
                #[trigger] token_k(reg.groups@[gi as int].commands@[ci2], k2),
            ) by {}
        }
        gi += 1;
        assert forall|gi2: int, ci2: int, k2: int|
            0 <= gi2 < gi && 0 <= ci2 < reg.groups@[gi2].commands@.len() && 0 <= k2 < 1
                + reg.groups@[gi2].commands@[ci2].aliases@.len() implies holds_token(
            out@,
            #[trigger] token_k(reg.groups@[gi2].commands@[ci2], k2),
        ) by {}
    }
    assert forall|t: Seq<u8>| known_name(*reg, t) implies holds_token(out@, t) by {
        let (gi2, ci2, k2) = choose|gi2: int, ci2: int, k2: int|
            0 <= gi2 < reg.groups@.len() && 0 <= ci2 < reg.groups@[gi2].commands@.len() && 0 <= k2
                < 1 + reg.groups@[gi2].commands@[ci2].aliases@.len() && token_k(
                reg.groups@[gi2].commands@[ci2],
                k2,
            ) == t;
        assert(holds_token(out@, token_k(reg.groups@[gi2].commands@[ci2], k2)));
    }
    out
}

/// The best fuzzy suggestion for an unknown token: a known name within
/// the configured distance, no farther from the token than any other
/// known name; nothing when every known name is beyond the threshold.
pub fn suggest(reg: &Registry, token: &Vec<u8>, max_distance: usize) -> (r: Option<Vec<u8>>)
    requires
        forall|t: Seq<u8>| known_name(*reg, t) ==> t.len() + token@.len() < usize::MAX,
    ensures
        match r {
            Some(s) => known_name(*reg, s@) && edit_distance(s@, token@) <= max_distance && (
            forall|t: Seq<u8>|
                known_name(*reg, t) ==> edit_distance(t, token@) >= edit_distance(s@, token@)),
            None => forall|t: Seq<u8>|
                known_name(*reg, t) ==> edit_distance(t, token@) > max_distance,
        },
{
    let names = all_names(reg);
    let n = names.len();
    let mut best: Option<(usize, usize)> = None;
    let mut i: usize = 0;
    while i < n
        invariant
            n == names@.len(),
            i <= n,
            forall|j: int| 0 <= j < n ==> known_name(*reg, #[trigger] names@[j]@),
            forall|t: Seq<u8>| known_name(*reg, t) ==> holds_token(names@, t),
            forall|t: Seq<u8>| known_name(*reg, t) ==> t.len() + token@.len() < usize::MAX,
            match best {
                Some((bi, bd)) => bi < n && bd == edit_distance(names@[bi as int]@, token@) && (
                forall|j: int|
                    0 <= j < i ==> edit_distance(#[trigger] names@[j]@, token@) >= bd),
                None => i == 0,
            },
        decreases n - i,
    {
        let d = edit_distance_ex(&names[i], token);
        best = match best {
            None => Some((i, d)),
            Some((bi, bd)) => if d < bd {
                Some((i, d))
            } else {
                Some((bi, bd))
            },
        };
        i += 1;
    }
    match best {
        Some((bi, bd)) => {
            if bd <= max_distance {
                let s = copy_bytes(&names[bi]);
                assert forall|t: Seq<u8>| known_name(*reg, t) implies edit_distance(t, token@)
                    >= edit_distance(s@, token@) by {
                    assert(holds_token(names@, t));
                    let j = choose|j: int| 0 <= j < names@.len() && names@[j]@ == t;
                }
                Some(s)
            } else {
                assert forall|t: Seq<u8>| known_name(*reg, t) implies edit_distance(t, token@)
                    > max_distance by {
                    assert(holds_token(names@, t));
                    let j = choose|j: int| 0 <= j < names@.len() && names@[j]@ == t;
                }
                None
            }
        },
        None => {
            assert forall|t: Seq<u8>| known_name(*reg, t) implies edit_distance(t, token@)
                > max_distance by {
                assert(holds_token(names@, t));
                let j = choose|j: int| 0 <= j < names@.len() && names@[j]@ == t;
            }
            None
        },
    }
}

/// The "not found" message for `token`:
/// ``Could not find: `token`.`` and, when a suggestion is at hand,
/// `` Did you mean `s`?``.
pub open spec fn not_found_message_spec(token: Seq<u8>, suggestion: Option<Seq<u8>>) -> Seq<u8> {
    seq![67u8, 111u8, 117u8, 108u8, 100u8, 32u8, 110u8, 111u8, 116u8, 32u8, 102u8, 105u8, 110u8, 100u8, 58u8, 32u8, 96u8]
        + token + seq![96u8, 46u8] + (match suggestion {
        Some(s) => seq![32u8, 68u8, 105u8, 100u8, 32u8, 121u8, 111u8, 117u8, 32u8, 109u8, 101u8, 97u8, 110u8, 32u8, 96u8]
            + s + seq![96u8, 63u8],
        None => Seq::empty(),
    })
}

/// Build the "not found" reply for an unknown help token, with the best
/// suggestion within the configured distance, if any.
pub fn not_found_message(reg: &Registry, token: &Vec<u8>, max_distance: usize) -> (r: Vec<u8>)
    requires
        forall|t: Seq<u8>| known_name(*reg, t) ==> t.len() + token@.len() < usize::MAX,
    ensures
        exists|s: Option<Seq<u8>>|
            {
                &&& r@ == not_found_message_spec(token@, s)
                &&& match s {
                    Some(sv) => known_name(*reg, sv) && edit_distance(sv, token@) <= max_distance
                        && (forall|t: Seq<u8>|
                        known_name(*reg, t) ==> edit_distance(t, token@) >= edit_distance(
                            sv,
                            token@,
                        )),
                    None => forall|t: Seq<u8>|
                        known_name(*reg, t) ==> edit_distance(t, token@) > max_distance,
                }
            },
{
    let s = suggest(reg, token, max_distance);
    let mut out: Vec<u8> = Vec::new();
    out.push(67);
    out.push(111);
    out.push(117);
    out.push(108);
    out.push(100);
    out.push(32);
    out.push(110);
    out.push(111);
    out.push(116);
    out.push(32);
    out.push(102);
    out.push(105);
    out.push(110);
    out.push(100);
    out.push(58);
    out.push(32);
    out.push(96);
    append_bytes(&mut out, token);
    out.push(96);
    out.push(46);
    match &s {
        Some(sv) => {
            out.push(32);
            out.push(68);
            out.push(105);
            out.push(100);
            out.push(32);
            out.push(121);
            out.push(111);
            out.push(117);
            out.push(32);
            out.push(109);
            out.push(101);
            out.push(97);
            out.push(110);
            out.push(32);
            out.push(96);
            append_bytes(&mut out, sv);
            out.push(96);
            out.push(63);
            assert(out@ =~= not_found_message_spec(token@, Some(sv@)));
        },
        None => {
            assert(out@ =~= not_found_message_spec(token@, None));
        },
    }
    out
}

} // verus!
