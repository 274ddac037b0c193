//! The command registry: named, grouped commands with aliases, group
//! prefixes and an optional default command per group. Registration
//! refuses a group whose command names or aliases collide with names
//! already reachable under the same prefix scope; resolution maps a
//! parsed invocation to a command, honouring group prefixes and the
//! default-command rule, and is pure.

use vstd::prelude::*;

use crate::parser::{split_segment, split_segment_spec, ParserConfig};
use crate::text::{bytes_equal, bytes_match, views};

verus! {

/// An immutable command descriptor.
pub struct Command {
    /// Primary name, unique within the group's prefix scope.
    pub name: Vec<u8>,
    /// Alternative names, in order.
    pub aliases: Vec<Vec<u8>>,
    /// Name of the rate-limit bucket the command is subject to, if any.
    pub bucket: Option<Vec<u8>>,
    /// Role the invoking user must hold, if any.
    pub required_role: Option<u64>,
    /// Only the owners configured for the deployment may invoke it.
    pub owner_only: bool,
    /// One-line help summary.
    pub summary: Vec<u8>,
}

/// A named group of commands, optionally gated behind group prefixes.
pub struct CommandGroup {
    pub name: Vec<u8>,
    /// When non-empty, a command of this group is invoked as
    /// `<group prefix> <command>`; the bare prefix invokes the default.
    pub prefixes: Vec<Vec<u8>>,
    /// Index into `commands` of the command invoked by the bare prefix.
    pub default_command: Option<usize>,
    /// One-line description for help output.
    pub summary: Vec<u8>,
    pub commands: Vec<Command>,
}

/// All groups, in registration order.
pub struct Registry {
    pub groups: Vec<CommandGroup>,
}

/// Why a group was refused at registration.
#[derive(Clone, Copy, PartialEq, Eq, Structural, Debug)]
pub enum RegisterError {
    DuplicateName,
}

/// A resolved invocation: which group and command answer it, and the
/// argument remainder that the handler receives.
pub struct Resolved {
    pub group: usize,
    pub command: usize,
    pub args: Vec<u8>,
}

/// `t` is one of `c`'s aliases under the case rule `ci`.
pub open spec fn alias_matches(c: Command, t: Seq<u8>, ci: bool) -> bool {
    exists|i: int| 0 <= i < c.aliases@.len() && bytes_match(c.aliases@[i]@, t, ci)
}

/// `t` names `c`, either as its primary name or as an alias.
pub open spec fn command_matches(c: Command, t: Seq<u8>, ci: bool) -> bool {
    bytes_match(c.name@, t, ci) || alias_matches(c, t, ci)
}

/// First index among the first `n` commands that `t` names.
pub open spec fn find_command_upto(cmds: Seq<Command>, t: Seq<u8>, ci: bool, n: int) -> Option<int>
    decreases n,
{
    if n <= 0 {
        None
    } else {
        match find_command_upto(cmds, t, ci, n - 1) {
            Some(j) => Some(j),
            None => if command_matches(cmds[n - 1], t, ci) {
                Some(n - 1)
            } else {
                None
            },
        }
    }
}

/// `t` is one of `g`'s prefixes under the case rule `ci`.
pub open spec fn group_has_prefix(g: CommandGroup, t: Seq<u8>, ci: bool) -> bool {
    exists|i: int| 0 <= i < g.prefixes@.len() && bytes_match(g.prefixes@[i]@, t, ci)
}

/// First index among the first `n` groups whose prefixes contain `t`.
pub open spec fn prefix_group_upto(groups: Seq<CommandGroup>, t: Seq<u8>, ci: bool, n: int) -> Option<
    int,
>
    decreases n,
{
    if n <= 0 {
        None
    } else {
        match prefix_group_upto(groups, t, ci, n - 1) {
            Some(g) => Some(g),
            None => if group_has_prefix(groups[n - 1], t, ci) {
                Some(n - 1)
            } else {
                None
            },
        }
    }
}

/// First (group, command) among the first `n` groups without prefixes
/// whose commands `t` names.
pub open spec fn general_find_upto(groups: Seq<CommandGroup>, t: Seq<u8>, ci: bool, n: int) -> Option<
    (int, int),
>
    decreases n,
{
    if n <= 0 {
        None
    } else {
        match general_find_upto(groups, t, ci, n - 1) {
            Some(p) => Some(p),
            None => if groups[n - 1].prefixes@.len() == 0 {
                match find_command_upto(
                    groups[n - 1].commands@,
                    t,
                    ci,
                    groups[n - 1].commands@.len() as int,
                ) {
                    Some(c) => Some((n - 1, c)),
                    None => None,
                }
            } else {
                None
            },
        }
    }
}

/// Lookup within a prefix-matched group: an empty sub-token picks the
/// group's default command; otherwise the sub-token must name a command
/// of the group. The remainder of the second split becomes the
/// handler's arguments.
pub open spec fn inner_lookup_spec(g: CommandGroup, args: Seq<u8>, cfg: ParserConfig) -> Option<(
    int,
    Seq<u8>,
)> {
    let st = split_segment_spec(args, views(cfg.delimiters@), cfg.trim_whitespace);
    if st.0.len() == 0 {
        match g.default_command {
            Some(d) => Some((d as int, st.1)),
            None => None,
        }
    } else {
        match find_command_upto(g.commands@, st.0, cfg.case_insensitive, g.commands@.len() as int) {
            Some(c) => Some((c, st.1)),
            None => None,
        }
    }
}

/// Resolution of a parsed invocation: the first group whose prefixes
/// contain the token answers it through `inner_lookup_spec`; when no
/// group prefix matches, the token is looked up among the commands of
/// the prefix-less ("general") groups, and the arguments pass through
/// unchanged.
pub open spec fn resolve_spec(
    reg: Registry,
    token: Seq<u8>,
    args: Seq<u8>,
    cfg: ParserConfig,
) -> Option<(int, int, Seq<u8>)> {
    match prefix_group_upto(reg.groups@, token, cfg.case_insensitive, reg.groups@.len() as int) {
        Some(gi) => match inner_lookup_spec(reg.groups@[gi], args, cfg) {
            Some((c, a)) => Some((gi, c, a)),
            None => None,
        },
        None => match general_find_upto(
            reg.groups@,
            token,
            cfg.case_insensitive,
            reg.groups@.len() as int,
        ) {
            Some((gi, c)) => Some((gi, c, args)),
            None => None,
        },
    }
}

/// The group's default-command index, when present, points into its
/// command list.
pub open spec fn group_wf(g: CommandGroup) -> bool {
    match g.default_command {
        Some(d) => d < g.commands@.len(),
        None => true,
    }
}

/// Token number `k` of command `c`: its name for `k == 0`, else an alias.
pub open spec fn token_k(c: Command, k: int) -> Seq<u8> {
    if k == 0 {
        c.name@
    } else {
        c.aliases@[k - 1]@
    }
}

/// Some command of `g` answers to `t`.
pub open spec fn defines_token(g: CommandGroup, t: Seq<u8>, ci: bool) -> bool {
    exists|j: int| 0 <= j < g.commands@.len() && command_matches(g.commands@[j], t, ci)
}

/// Some name or alias of `g`'s commands is also reachable in `h`.
pub open spec fn groups_share_name(g: CommandGroup, h: CommandGroup, ci: bool) -> bool {
    exists|i: int, k: int|
        0 <= i < g.commands@.len() && 0 <= k < 1 + g.commands@[i].aliases@.len() && defines_token(
            h,
            token_k(g.commands@[i], k),
            ci,
        )
}

/// Two groups share a prefix scope: both are general (prefix-less), or
/// they have a prefix in common.
pub open spec fn scopes_overlap(g: CommandGroup, h: CommandGroup, ci: bool) -> bool {
    (g.prefixes@.len() == 0 && h.prefixes@.len() == 0) || exists|i: int, j: int|
        0 <= i < g.prefixes@.len() && 0 <= j < h.prefixes@.len() && bytes_match(
            g.prefixes@[i]@,
            h.prefixes@[j]@,
            ci,
        )
}

/// Registering `g` collides: some already-registered group shares a
/// prefix scope with `g` and a name or alias reachable in it.
pub open spec fn collides(reg: Registry, g: CommandGroup, ci: bool) -> bool {
    exists|hi: int|
        0 <= hi < reg.groups@.len() && scopes_overlap(g, reg.groups@[hi], ci) && groups_share_name(
            g,
            reg.groups@[hi],
            ci,
        )
}

impl Registry {
    pub open spec fn wf(self) -> bool {
        forall|i: int| 0 <= i < self.groups@.len() ==> group_wf(#[trigger] self.groups@[i])
    }

    /// An empty registry.
    pub fn new() -> (r: Registry)
        ensures
            r.groups@.len() == 0,
            r.wf(),
    {
        Registry { groups: Vec::new() }
    }

    /// Register a group. Fails with a duplicate-name error exactly when
    /// one of the group's names or aliases is already reachable under an
    /// overlapping prefix scope; on success the group is appended.
    pub fn register(&mut self, g: CommandGroup, ci: bool) -> (r: Result<(), RegisterError>)
        requires
            old(self).wf(),
            group_wf(g),
        ensures
            final(self).wf(),
            r is Ok <==> !collides(*old(self), g, ci),
            r is Ok ==> final(self).groups@ == old(self).groups@.push(g),
            r is Err ==> final(self).groups@ == old(self).groups@,
    {
        let n = self.groups.len();
        let mut hi: usize = 0;
        while hi < n
            invariant
                n == self.groups@.len(),
                hi <= n,
                *self == *old(self),
                old(self).wf(),
                group_wf(g),
                forall|h2: int|
                    0 <= h2 < hi ==> !(scopes_overlap(g, #[trigger] self.groups@[h2], ci)
                        && groups_share_name(g, self.groups@[h2], ci)),
            decreases n - hi,
        {
            if scopes_overlap_ex(&g, &self.groups[hi], ci) && groups_share_ex(
                &g,
                &self.groups[hi],
                ci,
            ) {
                return Err(RegisterError::DuplicateName);
            }
            hi += 1;
        }
        self.groups.push(g);
        Ok(())
    }

    /// Resolve a parsed invocation against the registry, per
    /// `resolve_spec`.
    pub fn resolve(&self, token: &Vec<u8>, args: &Vec<u8>, cfg: &ParserConfig) -> (r: Option<
        Resolved,
    >)
        requires
            self.wf(),
        ensures
            match r {
                Some(res) => res.group < self.groups@.len() && res.command < self.groups@[
                    res.group as int
                ].commands@.len() && resolve_spec(*self, token@, args@, *cfg) == Some(
                    (res.group as int, res.command as int, res.args@),
                ),
                None => resolve_spec(*self, token@, args@, *cfg) is None,
            },
    {
        let n = self.groups.len();
        let pg = prefix_group(&self.groups, token, cfg.case_insensitive);
        if let Some(gi) = pg {
            let g = &self.groups[gi];
            let (sub, rest) = split_segment(args, &cfg.delimiters, cfg.trim_whitespace);
            if sub.len() == 0 {
                match g.default_command {
                    Some(d) => Some(Resolved { group: gi, command: d, args: rest }),
                    None => None,
                }
            } else {
                let fc = find_command(&g.commands, &sub, cfg.case_insensitive);
                match fc {
                    Some(c) => Some(Resolved { group: gi, command: c, args: rest }),
                    None => None,
                }
            }
        } else {
            let gf = general_find(&self.groups, token, cfg.case_insensitive);
            match gf {
                Some((gi, c)) => {
                    let a = crate::text::copy_bytes(args);
                    Some(Resolved { group: gi, command: c, args: a })
                },
                None => None,
            }
        }
    }
}

/// Whether `t` names `c` (name or alias), under the case rule `ci`.
pub fn command_matches_ex(c: &Command, t: &Vec<u8>, ci: bool) -> (r: bool)
    ensures
        r == command_matches(*c, t@, ci),
{
    if bytes_equal(&c.name, t, ci) {
        return true;
    }
    let n = c.aliases.len();
    let mut i: usize = 0;
    while i < n
        invariant
            n == c.aliases@.len(),
            i <= n,
            !bytes_match(c.name@, t@, ci),
            forall|j: int| 0 <= j < i ==> !bytes_match(#[trigger] c.aliases@[j]@, t@, ci),
        decreases n - i,
    {
        if bytes_equal(&c.aliases[i], t, ci) {
            assert(alias_matches(*c, t@, ci));
            return true;
        }
        i += 1;
    }
    assert(!alias_matches(*c, t@, ci));
    false
}

proof fn lemma_find_command_persist(cmds: Seq<Command>, t: Seq<u8>, ci: bool, m: int, n: int)
    requires
        0 <= m <= n,
        find_command_upto(cmds, t, ci, m) matches Some(_),
    ensures
        find_command_upto(cmds, t, ci, n) == find_command_upto(cmds, t, ci, m),
    decreases n,
{
    if n > m {
        lemma_find_command_persist(cmds, t, ci, m, n - 1);
    }
}

/// First command of `cmds` that `t` names.
pub fn find_command(cmds: &Vec<Command>, t: &Vec<u8>, ci: bool) -> (r: Option<usize>)
    ensures
        match r {
            Some(c) => c < cmds@.len() && find_command_upto(
                cmds@,
                t@,
                ci,
                cmds@.len() as int,
            ) == Some(c as int),
            None => find_command_upto(cmds@, t@, ci, cmds@.len() as int) is None,
        },
{
    let n = cmds.len();
    let mut i: usize = 0;
    while i < n
        invariant
            n == cmds@.len(),
            i <= n,
            find_command_upto(cmds@, t@, ci, i as int) is None,
        decreases n - i,
    {
        if command_matches_ex(&cmds[i], t, ci) {
            assert(find_command_upto(cmds@, t@, ci, i + 1) == Some(i as int));
            proof {
                lemma_find_command_persist(cmds@, t@, ci, i + 1, n as int);
            }
            return Some(i);
        }
        i += 1;
    }
    None
}

/// Whether `t` is one of `g`'s prefixes.
fn group_has_prefix_ex(g: &CommandGroup, t: &Vec<u8>, ci: bool) -> (r: bool)
    ensures
        r == group_has_prefix(*g, t@, ci),
{
    let n = g.prefixes.len();
    let mut i: usize = 0;
    while i < n
        invariant
            n == g.prefixes@.len(),
            i <= n,
            forall|j: int| 0 <= j < i ==> !bytes_match(#[trigger] g.prefixes@[j]@, t@, ci),
        decreases n - i,
    {
        if bytes_equal(&g.prefixes[i], t, ci) {
            assert(group_has_prefix(*g, t@, ci));
            return true;
        }
        i += 1;
    }
    assert(!group_has_prefix(*g, t@, ci));
    false
}

proof fn lemma_prefix_group_persist(groups: Seq<CommandGroup>, t: Seq<u8>, ci: bool, m: int, n: int)
    requires
        0 <= m <= n,
        prefix_group_upto(groups, t, ci, m) matches Some(_),
    ensures
        prefix_group_upto(groups, t, ci, n) == prefix_group_upto(groups, t, ci, m),
    decreases n,
{
    if n > m {
        lemma_prefix_group_persist(groups, t, ci, m, n - 1);
    }
}

/// First group whose prefixes contain `t`.
fn prefix_group(groups: &Vec<CommandGroup>, t: &Vec<u8>, ci: bool) -> (r: Option<usize>)
    ensures
        match r {
            Some(gi) => gi < groups@.len() && prefix_group_upto(
                groups@,
                t@,
                ci,
                groups@.len() as int,
            ) == Some(gi as int),
            None => prefix_group_upto(groups@, t@, ci, groups@.len() as int) is None,
        },
{
    let n = groups.len();
    let mut i: usize = 0;
    while i < n
        invariant
            n == groups@.len(),
            i <= n,
            prefix_group_upto(groups@, t@, ci, i as int) is None,
        decreases n - i,
    {
        if group_has_prefix_ex(&groups[i], t, ci) {
            assert(prefix_group_upto(groups@, t@, ci, i + 1) == Some(i as int));
            proof {
                lemma_prefix_group_persist(groups@, t@, ci, i + 1, n as int);
            }
            return Some(i);
        }
        i += 1;
    }
    None
}

proof fn lemma_general_find_persist(groups: Seq<CommandGroup>, t: Seq<u8>, ci: bool, m: int, n: int)
    requires
        0 <= m <= n,
        general_find_upto(groups, t, ci, m) matches Some(_),
    ensures
        general_find_upto(groups, t, ci, n) == general_find_upto(groups, t, ci, m),
    decreases n,
{
    if n > m {
        lemma_general_find_persist(groups, t, ci, m, n - 1);
    }
}

/// First command of a prefix-less group that `t` names.
fn general_find(groups: &Vec<CommandGroup>, t: &Vec<u8>, ci: bool) -> (r: Option<(usize, usize)>)
    ensures
        match r {
            Some((gi, c)) => gi < groups@.len() && c < groups@[gi as int].commands@.len()
                && general_find_upto(groups@, t@, ci, groups@.len() as int) == Some(
                (gi as int, c as int),
            ),
            None => general_find_upto(groups@, t@, ci, groups@.len() as int) is None,
        },
{
    let n = groups.len();
    let mut i: usize = 0;
    while i < n
        invariant
            n == groups@.len(),
            i <= n,
            general_find_upto(groups@, t@, ci, i as int) is None,
        decreases n - i,
    {
        if groups[i].prefixes.len() == 0 {
            let fc = find_command(&groups[i].commands, t, ci);
            if let Some(c) = fc {
                assert(general_find_upto(groups@, t@, ci, i + 1) == Some((i as int, c as int)));
                proof {
                    lemma_general_find_persist(groups@, t@, ci, i + 1, n as int);
                }
                return Some((i, c));
            }
        }
        i += 1;
    }
    None
}

/// Whether `g` and `h` share a prefix scope.
fn scopes_overlap_ex(g: &CommandGroup, h: &CommandGroup, ci: bool) -> (r: bool)
    ensures
        r == scopes_overlap(*g, *h, ci),
{
    if g.prefixes.len() == 0 && h.prefixes.len() == 0 {
        return true;
    }
    let n = g.prefixes.len();
    let mut i: usize = 0;
    while i < n
        invariant
            n == g.prefixes@.len(),
            i <= n,
            forall|i2: int, j2: int|
                0 <= i2 < i && 0 <= j2 < h.prefixes@.len() ==> !bytes_match(
                    #[trigger] g.prefixes@[i2]@,
                    #[trigger] h.prefixes@[j2]@,
                    ci,
                ),
        decreases n - i,
    {
        let m = h.prefixes.len();
        let mut j: usize = 0;
        while j < m
            invariant
                n == g.prefixes@.len(),
                m == h.prefixes@.len(),
                i < n,
                j <= m,
                forall|i2: int, j2: int|
                    0 <= i2 < i && 0 <= j2 < m ==> !bytes_match(
                        #[trigger] g.prefixes@[i2]@,
                        #[trigger] h.prefixes@[j2]@,
                        ci,
                    ),
                forall|j2: int|
                    0 <= j2 < j ==> !bytes_match(g.prefixes@[i as int]@, #[trigger] h.prefixes@[j2]@, ci),
            decreases m - j,
        {
            if bytes_equal(&g.prefixes[i], &h.prefixes[j], ci) {
                assert(scopes_overlap(*g, *h, ci));
                return true;
            }
            j += 1;
        }
        i += 1;
    }
    assert(!scopes_overlap(*g, *h, ci));
    false
}

/// Whether `t` names some command of `g`.
fn defines_token_ex(g: &CommandGroup, t: &Vec<u8>, ci: bool) -> (r: bool)
    ensures
        r == defines_token(*g, t@, ci),
{
    let fc = find_command(&g.commands, t, ci);
    match fc {
        Some(c) => {
            proof {
                lemma_find_command_props(g.commands@, t@, ci, g.commands@.len() as int, c as int);
            }
            true
        },
        None => {
            proof {
                lemma_find_command_none(g.commands@, t@, ci, g.commands@.len() as int);
            }
            false
        },
    }
}

proof fn lemma_find_command_props(cmds: Seq<Command>, t: Seq<u8>, ci: bool, n: int, c: int)
    requires
        0 <= n <= cmds.len(),
        find_command_upto(cmds, t, ci, n) == Some(c),
    ensures
        0 <= c < n,
        command_matches(cmds[c], t, ci),
    decreases n,
{
    if n > 0 {
        if find_command_upto(cmds, t, ci, n - 1) is Some {
            lemma_find_command_props(cmds, t, ci, n - 1, c);
        }
    }
}

proof fn lemma_find_command_none(cmds: Seq<Command>, t: Seq<u8>, ci: bool, n: int)
    requires
        0 <= n <= cmds.len(),
        find_command_upto(cmds, t, ci, n) is None,
    ensures
        forall|j: int| 0 <= j < n ==> !command_matches(#[trigger] cmds[j], t, ci),
    decreases n,
{
    if n > 0 {
        lemma_find_command_none(cmds, t, ci, n - 1);
    }
}

/// Whether some name or alias of `g`'s commands is reachable in `h`.
fn groups_share_ex(g: &CommandGroup, h: &CommandGroup, ci: bool) -> (r: bool)
    ensures
        r == groups_share_name(*g, *h, ci),
{
    let n = g.commands.len();
    let mut i: usize = 0;
    while i < n
        invariant
            n == g.commands@.len(),
            i <= n,
            forall|i2: int, k2: int|
                0 <= i2 < i && 0 <= k2 < 1 + g.commands@[i2].aliases@.len() ==> !defines_token(
                    *h,
                    #[trigger] token_k(g.commands@[i2], k2),
                    ci,
                ),
        decreases n - i,
    {
        if defines_token_ex(h, &g.commands[i].name, ci) {
            assert(token_k(g.commands@[i as int], 0) == g.commands@[i as int].name@);
            assert(groups_share_name(*g, *h, ci));
            return true;
        }
        let m = g.commands[i].aliases.len();
        let mut a: usize = 0;
        while a < m
            invariant
                n == g.commands@.len(),
                i < n,
                m == g.commands@[i as int].aliases@.len(),
                a <= m,
                !defines_token(*h, g.commands@[i as int].name@, ci),
                forall|i2: int, k2: int|
                    0 <= i2 < i && 0 <= k2 < 1 + g.commands@[i2].aliases@.len() ==> !defines_token(
                        *h,
                        #[trigger] token_k(g.commands@[i2], k2),
                        ci,
                    ),
                forall|k2: int|
                    1 <= k2 < 1 + a ==> !defines_token(
                        *h,
                        #[trigger] token_k(g.commands@[i as int], k2),
                        ci,
                    ),
            decreases m - a,
        {
            let ghost av = g.commands@[i as int].aliases@[a as int]@;
            if defines_token_ex(h, &g.commands[i].aliases[a], ci) {
                assert(token_k(g.commands@[i as int], a + 1) == av);
                assert(groups_share_name(*g, *h, ci));
                return true;
            }
            assert(token_k(g.commands@[i as int], a + 1) == av);
            a += 1;
        }
        assert(forall|k2: int|
            0 <= k2 < 1 + g.commands@[i as int].aliases@.len() ==> !defines_token(
                *h,
                token_k(g.commands@[i as int], k2),
                ci,
            )) by {
            assert(token_k(g.commands@[i as int], 0) == g.commands@[i as int].name@);
        }
        i += 1;
    }
    assert(!groups_share_name(*g, *h, ci));
    false
}

} // verus!
