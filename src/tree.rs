//! The command tree of a runfile and the resolution of an invocation
//! against it.
use vstd::prelude::*;
use crate::lang::Lang;

verus! {

/// One runnable command of a runfile.
#[derive(Clone, Debug, PartialEq, Eq)]
pub struct Command {
    pub name: String,
    /// Documentation shown in command listings.
    pub doc: Option<String>,
    /// Declared parameter names, in order.
    pub params: Vec<String>,
    pub lang: Lang,
    /// The source text handed to the language's toolchain.
    pub body: String,
}

/// A named edge from a node to another node of the same tree.
#[derive(Clone, Debug, PartialEq, Eq)]
pub struct Link {
    pub name: String,
    pub node: usize,
}

/// One scope of a runfile: its commands, subcommand blocks and includes.
#[derive(Clone, Debug, PartialEq, Eq)]
pub struct Node {
    pub commands: Vec<Command>,
    pub subcommands: Vec<Link>,
    pub includes: Vec<Link>,
}

/// A runfile's command tree, stored as an arena of nodes; node 0 is the root.
#[derive(Clone, Debug, PartialEq, Eq)]
pub struct RunTree {
    pub nodes: Vec<Node>,
}

/// Where an invocation leads.
#[derive(Clone, Copy, Debug, PartialEq, Eq)]
pub enum Resolution {
    /// Command `index` of node `node`; the first `consumed` arguments named it.
    Found { node: usize, index: usize, consumed: usize },
    /// Nothing matched in node `node`, which has no `default` command.
    NotFound { node: usize },
}

/// The least position in `names` that holds `name`.
#[verifier::opaque]
pub open spec fn first_index(names: Seq<Seq<char>>, name: Seq<char>) -> Option<int> {
    if exists|i: int| 0 <= i < names.len() && names[i] == name {
        Some(
            choose|i: int|
                0 <= i < names.len() && names[i] == name && forall|j: int|
                    0 <= j < i ==> names[j] != name,
        )
    } else {
        None
    }
}

pub open spec fn command_names(cmds: Seq<Command>) -> Seq<Seq<char>> {
    cmds.map_values(|c: Command| c.name@)
}

pub open spec fn link_names(links: Seq<Link>) -> Seq<Seq<char>> {
    links.map_values(|l: Link| l.name@)
}

/// The command called `name` among `cmds` (the first one, should two share it).
pub open spec fn lookup(cmds: Seq<Command>, name: Seq<char>) -> Option<Command> {
    match first_index(command_names(cmds), name) {
        Some(i) => Some(cmds[i]),
        None => None,
    }
}

/// No two of `names` are equal.
pub open spec fn unique(names: Seq<Seq<char>>) -> bool {
    forall|i: int, j: int| 0 <= i < names.len() && 0 <= j < names.len() && i != j ==> names[i] != names[j]
}

pub open spec fn default_name() -> Seq<char> {
    "default"@
}

/// `i` is the least position of `name` in `names`, and so `first_index` gives it.
proof fn lemma_first_index_is(names: Seq<Seq<char>>, name: Seq<char>, i: int)
    requires
        0 <= i < names.len(),
        names[i] == name,
        forall|j: int| 0 <= j < i ==> names[j] != name,
    ensures
        first_index(names, name) == Some(i),
{
    reveal(first_index);
    let k = choose|k: int|
        0 <= k < names.len() && names[k] == name && forall|j: int| 0 <= j < k ==> names[j] != name;
    assert(0 <= k < names.len() && names[k] == name && forall|j: int| 0 <= j < k ==> names[j] != name);
    if k < i {
        assert(names[k] != name);
    }
    if i < k {
        assert(names[i] != name);
    }
}

/// `name` is nowhere in `names`.
proof fn lemma_first_index_none(names: Seq<Seq<char>>, name: Seq<char>)
    requires
        forall|j: int| 0 <= j < names.len() ==> names[j] != name,
    ensures
        first_index(names, name) == None::<int>,
{
    reveal(first_index);
}

/// What `first_index` gives holds `name`, and nothing before it does.
pub proof fn lemma_first_index_found(names: Seq<Seq<char>>, name: Seq<char>)
    ensures
        first_index(names, name) matches Some(i) ==> 0 <= i < names.len() && names[i] == name
            && forall|j: int| 0 <= j < i ==> names[j] != name,
        first_index(names, name) is None <==> forall|j: int| 0 <= j < names.len() ==> names[j] != name,
{
    reveal(first_index);
    if exists|i: int| 0 <= i < names.len() && names[i] == name {
        let w = choose|i: int| 0 <= i < names.len() && names[i] == name;
        assert(exists|i: int|
            0 <= i < names.len() && names[i] == name && forall|j: int| 0 <= j < i ==> names[j] != name) by {
            lemma_least_exists(names, name, w);
        }
    }
}

proof fn lemma_least_exists(names: Seq<Seq<char>>, name: Seq<char>, w: int)
    requires
        0 <= w < names.len(),
        names[w] == name,
    ensures
        exists|i: int| 0 <= i < names.len() && names[i] == name && forall|j: int| 0 <= j < i ==> names[j] != name,
    decreases w,
{
    if exists|j: int| 0 <= j < w && names[j] == name {
        let j = choose|j: int| 0 <= j < w && names[j] == name;
        lemma_least_exists(names, name, j);
    } else {
        assert(forall|j: int| 0 <= j < w ==> names[j] != name);
    }
}

/// Looking a command up by name does not depend on the order in which the
/// commands were declared, and finds only a command whose name is exactly
/// the one asked for (no other case, no prefix).
pub proof fn lemma_lookup_order_independent(a: Seq<Command>, b: Seq<Command>, name: Seq<char>)
    requires
        unique(command_names(a)),
        unique(command_names(b)),
        a.to_set() == b.to_set(),
    ensures
        lookup(a, name) == lookup(b, name),
        lookup(a, name) matches Some(c) ==> c.name@ == name,
{
    let na = command_names(a);
    let nb = command_names(b);
    lemma_first_index_found(na, name);
    lemma_first_index_found(nb, name);
    match first_index(na, name) {
        Some(i) => {
            assert(a.to_set().contains(a[i]));
            assert(b.to_set().contains(a[i]));
            let j = choose|j: int| 0 <= j < b.len() && b[j] == a[i];
            assert(nb[j] == name);
            let k = first_index(nb, name)->0;
            assert(k == j);
        },
        None => {
            if first_index(nb, name) is Some {
                let k = first_index(nb, name)->0;
                assert(b.to_set().contains(b[k]));
                assert(a.to_set().contains(b[k]));
                let j = choose|j: int| 0 <= j < a.len() && a[j] == b[k];
                assert(na[j] == name);
            }
        },
    }
}

impl RunTree {
    /// Every link points at a node of the tree, and the root exists.
    pub open spec fn wf(&self) -> bool {
        &&& self.nodes@.len() > 0
        &&& forall|n: int, j: int|
            0 <= n < self.nodes@.len() && 0 <= j < self.nodes@[n].subcommands@.len()
                ==> (#[trigger] self.nodes@[n].subcommands@[j]).node < self.nodes@.len()
        &&& forall|n: int, j: int|
            0 <= n < self.nodes@.len() && 0 <= j < self.nodes@[n].includes@.len()
                ==> (#[trigger] self.nodes@[n].includes@[j]).node < self.nodes@.len()
    }

    pub open spec fn cmds(&self, n: int) -> Seq<Command> {
        self.nodes@[n].commands@
    }

    /// What node `n` gives when no argument from `pos` on names anything in it.
    pub open spec fn fallback(&self, n: int, pos: int) -> Resolution {
        match first_index(command_names(self.cmds(n)), default_name()) {
            Some(i) => Resolution::Found { node: n as usize, index: i as usize, consumed: pos as usize },
            None => Resolution::NotFound { node: n as usize },
        }
    }

    /// Resolution of `args[pos..]` in node `n`: an argument names a command of
    /// the node, else a subcommand block, else an include, which are entered
    /// with the next argument; otherwise the node's `default` command runs.
    pub open spec fn resolve_at(&self, n: int, args: Seq<Seq<char>>, pos: int) -> Resolution
        decreases args.len() - pos,
    {
        if 0 <= pos < args.len() && 0 <= n < self.nodes@.len() {
            let a = args[pos];
            match first_index(command_names(self.cmds(n)), a) {
                Some(i) => Resolution::Found { node: n as usize, index: i as usize, consumed: (pos + 1) as usize },
                None => match first_index(link_names(self.nodes@[n].subcommands@), a) {
                    Some(j) => self.resolve_at(self.nodes@[n].subcommands@[j].node as int, args, pos + 1),
                    None => match first_index(link_names(self.nodes@[n].includes@), a) {
                        Some(k) => self.resolve_at(self.nodes@[n].includes@[k].node as int, args, pos + 1),
                        None => self.fallback(n, pos),
                    },
                },
            }
        } else {
            self.fallback(n, pos)
        }
    }

    /// Resolution of a whole invocation, from the root.
    pub open spec fn resolution_of(&self, args: Seq<Seq<char>>) -> Resolution {
        self.resolve_at(0, args, 0)
    }
}

/// The position of the first command of `cmds` called `name`.
pub fn find_command(cmds: &Vec<Command>, name: &str) -> (r: Option<usize>)
    ensures
        r is None <==> first_index(command_names(cmds@), name@) is None,
        r matches Some(i) ==> first_index(command_names(cmds@), name@) == Some(i as int),
        r matches Some(i) ==> i < cmds@.len() && cmds@[i as int].name@ == name@,
{
    let ghost names = command_names(cmds@);
    let target = name.to_owned();
    let mut i: usize = 0;
    while i < cmds.len()
        invariant
            0 <= i <= cmds@.len(),
            target@ == name@,
            names == command_names(cmds@),
            forall|j: int| 0 <= j < i ==> names[j] != name@,
        decreases cmds@.len() - i,
    {
        if cmds[i].name == target {
            proof {
                lemma_first_index_is(names, name@, i as int);
            }
            return Some(i);
        }
        i = i + 1;
    }
    proof {
        lemma_first_index_none(names, name@);
    }
    None
}

/// The position of the first link of `links` called `name`.
pub fn find_link(links: &Vec<Link>, name: &str) -> (r: Option<usize>)
    ensures
        r is None <==> first_index(link_names(links@), name@) is None,
        r matches Some(i) ==> first_index(link_names(links@), name@) == Some(i as int),
        r matches Some(i) ==> i < links@.len() && links@[i as int].name@ == name@,
{
    let ghost names = link_names(links@);
    let target = name.to_owned();
    let mut i: usize = 0;
    while i < links.len()
        invariant
            0 <= i <= links@.len(),
            target@ == name@,
            names == link_names(links@),
            forall|j: int| 0 <= j < i ==> names[j] != name@,
        decreases links@.len() - i,
    {
        if links[i].name == target {
            proof {
                lemma_first_index_is(names, name@, i as int);
            }
            return Some(i);
        }
        i = i + 1;
    }
    proof {
        lemma_first_index_none(names, name@);
    }
    None
}

/// The first argument names nothing in the root scope.
pub open spec fn names_nothing_at_root(t: RunTree, args: Seq<Seq<char>>) -> bool {
    args.len() == 0 || {
        &&& forall|i: int| 0 <= i < t.cmds(0).len() ==> (#[trigger] t.cmds(0)[i]).name@ != args[0]
        &&& forall|i: int| 0 <= i < t.nodes@[0].subcommands@.len()
            ==> (#[trigger] t.nodes@[0].subcommands@[i]).name@ != args[0]
        &&& forall|i: int| 0 <= i < t.nodes@[0].includes@.len()
            ==> (#[trigger] t.nodes@[0].includes@[i]).name@ != args[0]
    }
}

proof fn lemma_root_falls_back(t: RunTree, args: Seq<Seq<char>>)
    requires
        t.wf(),
        names_nothing_at_root(t, args),
    ensures
        t.resolution_of(args) == t.fallback(0, 0),
{
    if args.len() > 0 {
        let nc = command_names(t.cmds(0));
        let ns = link_names(t.nodes@[0].subcommands@);
        let ni = link_names(t.nodes@[0].includes@);
        lemma_first_index_found(nc, args[0]);
        lemma_first_index_found(ns, args[0]);
        lemma_first_index_found(ni, args[0]);
        assert(forall|j: int| 0 <= j < nc.len() ==> nc[j] != args[0]);
        assert(forall|j: int| 0 <= j < ns.len() ==> ns[j] != args[0]);
        assert(forall|j: int| 0 <= j < ni.len() ==> ni[j] != args[0]);
    }
}

/// An invocation whose first argument names no command, subcommand block or
/// include of the root runs the root's `default` command, if it has one,
/// with the whole argument list.
pub proof fn lemma_unknown_runs_default(t: RunTree, args: Seq<Seq<char>>)
    requires
        t.wf(),
        names_nothing_at_root(t, args),
        exists|i: int| 0 <= i < t.cmds(0).len() && (#[trigger] t.cmds(0)[i]).name@ == default_name(),
    ensures
        t.resolution_of(args) matches Resolution::Found { node, index, consumed } && node == 0
            && consumed == 0 && index < t.cmds(0).len() && t.cmds(0)[index as int].name@ == default_name(),
{
    lemma_root_falls_back(t, args);
    let nc = command_names(t.cmds(0));
    lemma_first_index_found(nc, default_name());
    let w = choose|i: int| 0 <= i < t.cmds(0).len() && (#[trigger] t.cmds(0)[i]).name@ == default_name();
    assert(nc[w] == default_name());
    let i = first_index(nc, default_name())->0;
    assert(t.nodes@[0].commands.len() == t.cmds(0).len());
    assert(t.fallback(0, 0) == (Resolution::Found { node: 0, index: i as usize, consumed: 0 }));
}

/// An invocation whose first argument names nothing in the root, in a
/// runfile without a `default` command, is not found at the root.
pub proof fn lemma_unknown_without_default(t: RunTree, args: Seq<Seq<char>>)
    requires
        t.wf(),
        names_nothing_at_root(t, args),
        forall|i: int| 0 <= i < t.cmds(0).len() ==> (#[trigger] t.cmds(0)[i]).name@ != default_name(),
    ensures
        t.resolution_of(args) == (Resolution::NotFound { node: 0 }),
{
    lemma_root_falls_back(t, args);
    let nc = command_names(t.cmds(0));
    lemma_first_index_found(nc, default_name());
    assert(forall|j: int| 0 <= j < nc.len() ==> nc[j] != default_name());
}

/// The views of a list of arguments.
pub open spec fn arg_views(args: Seq<String>) -> Seq<Seq<char>> {
    args.map_values(|a: String| a@)
}

impl RunTree {
    /// A tree holding one empty root scope.
    pub fn new() -> (r: RunTree)
        ensures
            r.wf(),
            r.nodes@.len() == 1,
            r.nodes@[0].commands@.len() == 0,
            r.nodes@[0].subcommands@.len() == 0,
            r.nodes@[0].includes@.len() == 0,
    {
        RunTree { nodes: vec![Node { commands: Vec::new(), subcommands: Vec::new(), includes: Vec::new() }] }
    }

    fn fallback_exec(&self, n: usize, pos: usize) -> (r: Resolution)
        requires
            n < self.nodes@.len(),
        ensures
            r == self.fallback(n as int, pos as int),
            r matches Resolution::Found { node, index, consumed } ==> node == n
                && index < self.cmds(node as int).len() && consumed == pos,
            r matches Resolution::NotFound { node } ==> node == n,
    {
        match find_command(&self.nodes[n].commands, "default") {
            Some(i) => Resolution::Found { node: n, index: i, consumed: pos },
            None => Resolution::NotFound { node: n },
        }
    }

    /// The names of the commands of node `n`, in declaration order.
    pub fn command_list(&self, n: usize) -> (r: Vec<String>)
        requires
            n < self.nodes@.len(),
        ensures
            arg_views(r@) == command_names(self.cmds(n as int)),
    {
        let cmds = &self.nodes[n].commands;
        let mut r: Vec<String> = Vec::new();
        let mut i: usize = 0;
        while i < cmds.len()
            invariant
                i <= cmds@.len(),
                cmds@ == self.cmds(n as int),
                arg_views(r@) == command_names(cmds@.subrange(0, i as int)),
            decreases cmds@.len() - i,
        {
            let name = cmds[i].name.clone();
            let ghost before = r@;
            r.push(name);
            assert(arg_views(r@) =~= arg_views(before).push(cmds@[i as int].name@));
            assert(command_names(cmds@.subrange(0, i + 1)) =~= command_names(
                cmds@.subrange(0, i as int),
            ).push(cmds@[i as int].name@));
            i = i + 1;
        }
        assert(cmds@.subrange(0, i as int) == cmds@);
        r
    }

    /// Resolves the invocation `args` (program name excluded) from the root.
    pub fn resolve(&self, args: &Vec<String>) -> (r: Resolution)
        requires
            self.wf(),
        ensures
            r == self.resolution_of(arg_views(args@)),
            r matches Resolution::Found { node, index, consumed } ==> node < self.nodes@.len()
                && index < self.cmds(node as int).len() && consumed <= args@.len(),
            r matches Resolution::NotFound { node } ==> node < self.nodes@.len(),
    {
        let ghost views = arg_views(args@);
        let mut n: usize = 0;
        let mut pos: usize = 0;
        loop
            invariant
                self.wf(),
                views == arg_views(args@),
                n < self.nodes@.len(),
                pos <= args@.len(),
                self.resolve_at(0, views, 0) == self.resolve_at(n as int, views, pos as int),
            decreases args@.len() - pos,
        {
            if pos >= args.len() {
                return self.fallback_exec(n, pos);
            }
            let a = args[pos].as_str();
            assert(views[pos as int] == a@);
            assert(views.len() == args@.len());
            let node = &self.nodes[n];
            let found = find_command(&node.commands, a);
            if let Some(i) = found {
                return Resolution::Found { node: n, index: i, consumed: pos + 1 };
            }
            assert(first_index(command_names(self.cmds(n as int)), views[pos as int]) is None);
            let sub = find_link(&node.subcommands, a);
            if let Some(j) = sub {
                assert(self.nodes@[n as int].subcommands@[j as int].node < self.nodes@.len());
                assert(self.resolve_at(n as int, views, pos as int) == self.resolve_at(
                    node.subcommands@[j as int].node as int, views, pos + 1));
                n = node.subcommands[j].node;
                pos = pos + 1;
            } else {
                let inc = find_link(&node.includes, a);
                if let Some(k) = inc {
                    assert(self.nodes@[n as int].includes@[k as int].node < self.nodes@.len());
                    assert(self.resolve_at(n as int, views, pos as int) == self.resolve_at(
                        node.includes@[k as int].node as int, views, pos + 1));
                    n = node.includes[k].node;
                    pos = pos + 1;
                } else {
                    return self.fallback_exec(n, pos);
                }
            }
        }
    }
}

/// The arguments of an invocation bound to a command's parameters.
#[derive(Clone, Debug, PartialEq, Eq)]
pub struct Binding {
    /// One entry per declared parameter: the argument in its position, if any.
    pub values: Vec<Option<String>>,
    /// The arguments beyond the declared parameters, passed on verbatim.
    pub extra: Vec<String>,
}

/// The argument bound to parameter `i` when binding starts at `start`.
pub open spec fn bound_value(args: Seq<String>, start: int, i: int) -> Option<String> {
    if start + i < args.len() {
        Some(args[start + i])
    } else {
        None
    }
}

/// Binds `args[start..]` to the parameters of `cmd` by position; what is
/// left over goes to `extra`.
pub fn bind(cmd: &Command, args: &Vec<String>, start: usize) -> (r: Binding)
    requires
        start <= args@.len(),
    ensures
        r.values@.len() == cmd.params@.len(),
        forall|i: int| 0 <= i < cmd.params@.len() ==> r.values@[i] == bound_value(args@, start as int, i),
        start + cmd.params@.len() <= args@.len() ==> r.extra@ == args@.subrange(
            start + cmd.params@.len(),
            args@.len() as int,
        ),
        start + cmd.params@.len() > args@.len() ==> r.extra@.len() == 0,
{
    let n = cmd.params.len();
    let mut values: Vec<Option<String>> = Vec::new();
    let mut i: usize = 0;
    while i < n
        invariant
            i <= n,
            n == cmd.params@.len(),
            start <= args@.len(),
            values@.len() == i,
            forall|k: int| 0 <= k < i ==> values@[k] == bound_value(args@, start as int, k),
        decreases n - i,
    {
        if i < args.len() - start {
            values.push(Some(args[start + i].clone()));
        } else {
            values.push(None);
        }
        i = i + 1;
    }
    let mut extra: Vec<String> = Vec::new();
    if n <= args.len() - start {
        let mut j: usize = start + n;
        while j < args.len()
            invariant
                start + n <= j <= args@.len(),
                extra@ == args@.subrange(start + n, j as int),
            decreases args@.len() - j,
        {
            extra.push(args[j].clone());
            assert(args@.subrange(start + n, j + 1) == args@.subrange(start + n, j as int).push(args@[j as int]));
            j = j + 1;
        }
    }
    Binding { values, extra }
}

impl RunTree {
    /// No two commands of a scope share a name, nor two of its subcommand blocks.
    pub open spec fn names_unique(&self) -> bool {
        &&& forall|n: int| 0 <= n < self.nodes@.len() ==> unique(command_names(#[trigger] self.cmds(n)))
        &&& forall|n: int|
            0 <= n < self.nodes@.len() ==> unique(link_names((#[trigger] self.nodes@[n]).subcommands@))
    }

    /// Adds `c` to the commands of node `n`; refuses (and returns `false`)
    /// when node `n` already has a command of that name.
    pub fn add_command(&mut self, n: usize, c: Command) -> (added: bool)
        requires
            old(self).wf(),
            old(self).names_unique(),
            n < old(self).nodes@.len(),
        ensures
            final(self).wf(),
            final(self).names_unique(),
            final(self).nodes@.len() == old(self).nodes@.len(),
            added == (first_index(command_names(old(self).cmds(n as int)), c.name@) is None),
            added ==> final(self).cmds(n as int) == old(self).cmds(n as int).push(c),
            forall|m: int| 0 <= m < final(self).nodes@.len() && m != n ==> #[trigger] final(self).cmds(m) == old(self).cmds(m),
            forall|m: int| 0 <= m < final(self).nodes@.len() ==> (#[trigger] final(self).nodes@[m]).subcommands@
                == old(self).nodes@[m].subcommands@ && final(self).nodes@[m].includes@ == old(self).nodes@[m].includes@,
            !added ==> *final(self) == *old(self),
    {
        let ghost before = self.cmds(n as int);
        let found = find_command(&self.nodes[n].commands, c.name.as_str());
        if found.is_some() {
            return false;
        }
        proof {
            lemma_first_index_found(command_names(before), c.name@);
        }
        self.nodes[n].commands.push(c);
        proof {
            assert(command_names(self.cmds(n as int)) =~= command_names(before).push(c.name@));
            assert forall|m: int| 0 <= m < self.nodes@.len() implies unique(command_names(#[trigger] self.cmds(m))) by {
                if m != n {
                    assert(self.cmds(m) == old(self).cmds(m));
                }
            }
            assert forall|m: int| 0 <= m < self.nodes@.len() implies unique(link_names((#[trigger] self.nodes@[m]).subcommands@)) by {
                assert(self.nodes@[m].subcommands@ == old(self).nodes@[m].subcommands@);
            }
        }
        true
    }

    /// Opens a new empty scope as a subcommand block `name` of node `n` and
    /// returns its index; refuses (`None`) when node `n` already has a
    /// subcommand block of that name.
    pub fn add_block(&mut self, n: usize, name: String) -> (r: Option<usize>)
        requires
            old(self).wf(),
            old(self).names_unique(),
            n < old(self).nodes@.len(),
            old(self).nodes@.len() < usize::MAX,
        ensures
            final(self).wf(),
            final(self).names_unique(),
            r is Some == (first_index(link_names(old(self).nodes@[n as int].subcommands@), name@) is None),
            r matches Some(k) ==> {
                &&& k == old(self).nodes@.len()
                &&& final(self).nodes@.len() == k + 1
                &&& final(self).nodes@[n as int].subcommands@ == old(self).nodes@[n as int].subcommands@.push(
                    Link { name, node: k },
                )
                &&& final(self).cmds(k as int).len() == 0
                &&& final(self).nodes@[k as int].subcommands@.len() == 0
                &&& final(self).nodes@[k as int].includes@.len() == 0
                &&& forall|m: int| 0 <= m < k ==> #[trigger] final(self).cmds(m) == old(self).cmds(m)
                &&& forall|m: int| 0 <= m < k && m != n ==> (#[trigger] final(self).nodes@[m]).subcommands@
                    == old(self).nodes@[m].subcommands@
                &&& forall|m: int| 0 <= m < k ==> (#[trigger] final(self).nodes@[m]).includes@
                    == old(self).nodes@[m].includes@
            },
            r is None ==> *final(self) == *old(self),
    {
        let ghost before = self.nodes@[n as int].subcommands@;
        let found = find_link(&self.nodes[n].subcommands, name.as_str());
        if found.is_some() {
            return None;
        }
        proof {
            lemma_first_index_found(link_names(before), name@);
        }
        let k = self.nodes.len();
        self.nodes.push(Node { commands: Vec::new(), subcommands: Vec::new(), includes: Vec::new() });
        self.nodes[n].subcommands.push(Link { name, node: k });
        proof {
            assert(link_names(self.nodes@[n as int].subcommands@) =~= link_names(before).push(name@));
            assert forall|m: int| 0 <= m < self.nodes@.len() implies unique(command_names(#[trigger] self.cmds(m))) by {
                if m < k {
                    assert(self.cmds(m) == old(self).cmds(m));
                } else {
                    assert(command_names(self.cmds(m)) =~= Seq::<Seq<char>>::empty());
                }
            }
            assert forall|m: int| 0 <= m < self.nodes@.len() implies unique(link_names((#[trigger] self.nodes@[m]).subcommands@)) by {
                if m != n && m < k {
                    assert(self.nodes@[m].subcommands@ == old(self).nodes@[m].subcommands@);
                } else if m == k {
                    assert(link_names(self.nodes@[m].subcommands@) =~= Seq::<Seq<char>>::empty());
                }
            }
            assert forall|m: int, j: int|
                0 <= m < self.nodes@.len() && 0 <= j < self.nodes@[m].subcommands@.len()
                implies (#[trigger] self.nodes@[m].subcommands@[j]).node < self.nodes@.len() by {
                if m != n && m < k {
                    assert(self.nodes@[m].subcommands@ == old(self).nodes@[m].subcommands@);
                } else if m == n && j < before.len() {
                    assert(self.nodes@[m].subcommands@[j] == before[j]);
                }
            }
            assert forall|m: int, j: int|
                0 <= m < self.nodes@.len() && 0 <= j < self.nodes@[m].includes@.len()
                implies (#[trigger] self.nodes@[m].includes@[j]).node < self.nodes@.len() by {
                if m < k {
                    assert(self.nodes@[m].includes@ == old(self).nodes@[m].includes@);
                }
            }
        }
        Some(k)
    }
}

/// `links` with every target moved up by `off`, names kept.
fn shift_links(links: &mut Vec<Link>, off: usize, m: usize)
    requires
        forall|j: int| 0 <= j < old(links)@.len() ==> (#[trigger] old(links)@[j]).node < m,
        off + m <= usize::MAX,
    ensures
        final(links)@.len() == old(links)@.len(),
        forall|j: int| 0 <= j < final(links)@.len() ==> (#[trigger] final(links)@[j]).node == old(links)@[j].node + off
            && final(links)@[j].name == old(links)@[j].name,
        link_names(final(links)@) == link_names(old(links)@),
{
    let mut j: usize = 0;
    while j < links.len()
        invariant
            j <= links@.len(),
            links@.len() == old(links)@.len(),
            off + m <= usize::MAX,
            forall|k: int| 0 <= k < j ==> (#[trigger] links@[k]).node == old(links)@[k].node + off
                && links@[k].name == old(links)@[k].name,
            forall|k: int| j <= k < links@.len() ==> #[trigger] links@[k] == old(links)@[k],
            forall|k: int| 0 <= k < old(links)@.len() ==> (#[trigger] old(links)@[k]).node < m,
        decreases links@.len() - j,
    {
        let t = links[j].node;
        links[j].node = t + off;
        j = j + 1;
    }
    assert(link_names(links@) =~= link_names(old(links)@));
}

impl RunTree {
    /// Merges `other` into this tree as the include `name` of node `n`; its
    /// nodes are appended after the existing ones and keep their own names
    /// and commands. Refuses (`None`) when node `n` already has an include
    /// of that name.
    pub fn add_include(&mut self, n: usize, name: String, other: RunTree) -> (r: Option<usize>)
        requires
            old(self).wf(),
            old(self).names_unique(),
            other.wf(),
            other.names_unique(),
            n < old(self).nodes@.len(),
            old(self).nodes@.len() + other.nodes@.len() < usize::MAX,
        ensures
            final(self).wf(),
            final(self).names_unique(),
            r is Some == (first_index(link_names(old(self).nodes@[n as int].includes@), name@) is None),
            r is None ==> *final(self) == *old(self),
            r matches Some(k) ==> {
                &&& k == old(self).nodes@.len()
                &&& final(self).nodes@.len() == k + other.nodes@.len()
                &&& forall|i: int| 0 <= i < k ==> #[trigger] final(self).cmds(i) == old(self).cmds(i)
                &&& forall|i: int| 0 <= i < other.nodes@.len() ==> #[trigger] final(self).cmds(k + i) == other.cmds(i)
                &&& forall|i: int, j: int| 0 <= i < other.nodes@.len() && 0 <= j < other.nodes@[i].subcommands@.len()
                    ==> (#[trigger] final(self).nodes@[k + i].subcommands@[j]).node == other.nodes@[i].subcommands@[j].node + k
                        && final(self).nodes@[k + i].subcommands@[j].name == other.nodes@[i].subcommands@[j].name
                &&& forall|i: int, j: int| 0 <= i < other.nodes@.len() && 0 <= j < other.nodes@[i].includes@.len()
                    ==> (#[trigger] final(self).nodes@[k + i].includes@[j]).node == other.nodes@[i].includes@[j].node + k
                        && final(self).nodes@[k + i].includes@[j].name == other.nodes@[i].includes@[j].name
                &&& forall|i: int| 0 <= i < other.nodes@.len() ==> (#[trigger] final(self).nodes@[k + i]).subcommands@.len()
                    == other.nodes@[i].subcommands@.len() && final(self).nodes@[k + i].includes@.len()
                    == other.nodes@[i].includes@.len()
                &&& final(self).nodes@[n as int].includes@ == old(self).nodes@[n as int].includes@.push(
                    Link { name, node: k },
                )
            },
    {
        let found = find_link(&self.nodes[n].includes, name.as_str());
        if found.is_some() {
            return None;
        }
        let k = self.nodes.len();
        let ghost before = *self;
        let mut rest = other.nodes;
        let m = rest.len();
        let mut i: usize = 0;
        while i < m
            invariant
                i <= m,
                m == other.nodes@.len(),
                k == before.nodes@.len(),
                k + m < usize::MAX,
                n < k,
                before.wf(),
                before.names_unique(),
                other.wf(),
                other.names_unique(),
                rest@ == other.nodes@.subrange(i as int, m as int),
                self.nodes@.len() == k + i,
                forall|a: int| 0 <= a < k ==> #[trigger] self.nodes@[a] == before.nodes@[a],
                forall|a: int| 0 <= a < i ==> (#[trigger] self.cmds(k + a)) == other.cmds(a),
                forall|a: int| 0 <= a < i ==> link_names((#[trigger] self.nodes@[k + a]).subcommands@)
                    == link_names(other.nodes@[a].subcommands@),
                forall|a: int| 0 <= a < i ==> (#[trigger] self.nodes@[k + a]).subcommands@.len()
                    == other.nodes@[a].subcommands@.len() && self.nodes@[k + a].includes@.len()
                    == other.nodes@[a].includes@.len(),
                forall|a: int, j: int| 0 <= a < i && 0 <= j < other.nodes@[a].subcommands@.len()
                    ==> (#[trigger] self.nodes@[k + a].subcommands@[j]).node == other.nodes@[a].subcommands@[j].node + k
                        && self.nodes@[k + a].subcommands@[j].name == other.nodes@[a].subcommands@[j].name,
                forall|a: int, j: int| 0 <= a < i && 0 <= j < other.nodes@[a].includes@.len()
                    ==> (#[trigger] self.nodes@[k + a].includes@[j]).node == other.nodes@[a].includes@[j].node + k
                        && self.nodes@[k + a].includes@[j].name == other.nodes@[a].includes@[j].name,
                forall|a: int, j: int|
                    k <= a < k + i && 0 <= j < self.nodes@[a].subcommands@.len()
                        ==> (#[trigger] self.nodes@[a].subcommands@[j]).node < k + m,
                forall|a: int, j: int|
                    k <= a < k + i && 0 <= j < self.nodes@[a].includes@.len()
                        ==> (#[trigger] self.nodes@[a].includes@[j]).node < k + m,
            decreases m - i,
        {
            let ghost idx = i as int;
            let ghost top = *self;
            assert(rest@[0] == other.nodes@[idx]);
            let node = rest.remove(0);
            assert(rest@ =~= other.nodes@.subrange(i + 1, m as int));
            let Node { commands, mut subcommands, mut includes } = node;
            assert(forall|j: int| 0 <= j < subcommands@.len() ==> (#[trigger] subcommands@[j]).node < m) by {
                assert(subcommands@ == other.nodes@[idx].subcommands@);
            }
            assert(forall|j: int| 0 <= j < includes@.len() ==> (#[trigger] includes@[j]).node < m) by {
                assert(includes@ == other.nodes@[idx].includes@);
            }
            shift_links(&mut subcommands, k, m);
            shift_links(&mut includes, k, m);
            assert(commands@ == other.cmds(idx));
            let ghost pre = self.nodes@;
            self.nodes.push(Node { commands, subcommands, includes });
            assert(self.cmds(k + idx) == other.cmds(idx));
            assert forall|a: int| 0 <= a < k + idx implies #[trigger] self.nodes@[a] == pre[a] by {}
            assert forall|a: int| 0 <= a < idx + 1 implies (#[trigger] self.cmds(k + a)) == other.cmds(a) by {
                if a < idx {
                    assert(top.cmds(k + a) == other.cmds(a));
                    assert(self.nodes@[k + a] == pre[k + a]);
                }
            }
            i = i + 1;
        }
        let ghost mid = self.nodes@;
        let ghost looped = *self;
        self.nodes[n].includes.push(Link { name, node: k });
        proof {
            assert forall|a: int| 0 <= a < self.nodes@.len() && a != n implies #[trigger] self.nodes@[a] == mid[a] by {}
            assert forall|i2: int| 0 <= i2 < other.nodes@.len() implies #[trigger] self.cmds(k + i2) == other.cmds(i2) by {
                assert(looped.cmds(k + i2) == other.cmds(i2));
                assert(self.nodes@[k + i2] == mid[k + i2]);
            }
            assert forall|m2: int| 0 <= m2 < self.nodes@.len() implies unique(command_names(#[trigger] self.cmds(m2))) by {
                if m2 < k {
                    assert(self.cmds(m2) == before.cmds(m2));
                } else {
                    assert(self.cmds(k + (m2 - k)) == other.cmds(m2 - k));
                }
            }
            assert forall|m2: int| 0 <= m2 < self.nodes@.len() implies unique(link_names((#[trigger] self.nodes@[m2]).subcommands@)) by {
                if m2 < k {
                    assert(self.nodes@[m2].subcommands@ == before.nodes@[m2].subcommands@);
                } else {
                    assert(self.nodes@[k + (m2 - k)] == mid[k + (m2 - k)]);
                    assert(link_names(mid[k + (m2 - k)].subcommands@) == link_names(other.nodes@[m2 - k].subcommands@));
                }
            }
            assert forall|a: int, j: int|
                0 <= a < self.nodes@.len() && 0 <= j < self.nodes@[a].subcommands@.len()
                implies (#[trigger] self.nodes@[a].subcommands@[j]).node < self.nodes@.len() by {
                if a < k {
                    assert(self.nodes@[a].subcommands@ == before.nodes@[a].subcommands@);
                }
            }
            assert forall|a: int, j: int|
                0 <= a < self.nodes@.len() && 0 <= j < self.nodes@[a].includes@.len()
                implies (#[trigger] self.nodes@[a].includes@[j]).node < self.nodes@.len() by {
                if a < k && a != n {
                    assert(self.nodes@[a].includes@ == before.nodes@[a].includes@);
                } else if a == n && j < before.nodes@[a].includes@.len() {
                    assert(self.nodes@[a].includes@[j] == before.nodes@[a].includes@[j]);
                }
            }
            assert forall|i2: int| 0 <= i2 < k implies #[trigger] self.cmds(i2) == before.cmds(i2) by {
                assert(self.nodes@[i2].commands == before.nodes@[i2].commands);
            }
        }
        Some(k)
    }
}

/// The position that listing entry `i` shows when the node's `default`
/// command stands at `d` (listed first), among `len` commands.
pub open spec fn listed_at(d: Option<int>, i: int) -> int {
    match d {
        Some(d) => if i == 0 {
            d
        } else if i - 1 < d {
            i - 1
        } else {
            i
        },
        None => i,
    }
}

impl RunTree {
    /// The order in which the commands of node `n` are listed: `default`
    /// first, then the others in declaration order.
    pub fn listing_order(&self, n: usize) -> (r: Vec<usize>)
        requires
            n < self.nodes@.len(),
        ensures
            r@.len() == self.cmds(n as int).len(),
            forall|i: int| 0 <= i < r@.len() ==> #[trigger] r@[i] as int == listed_at(
                first_index(command_names(self.cmds(n as int)), default_name()),
                i,
            ),
    {
        let cmds = &self.nodes[n].commands;
        let d = find_command(cmds, "default");
        proof {
            lemma_first_index_found(command_names(cmds@), "default"@);
        }
        let ghost dg: Option<int> = first_index(command_names(cmds@), default_name());
        let len = cmds.len();
        let mut r: Vec<usize> = Vec::new();
        let mut i: usize = 0;
        while i < len
            invariant
                i <= len,
                len == cmds@.len(),
                cmds@ == self.cmds(n as int),
                d is None <==> dg is None,
                d matches Some(x) ==> dg == Some(x as int) && x < len,
                r@.len() == i,
                forall|k: int| 0 <= k < i ==> #[trigger] r@[k] as int == listed_at(dg, k),
            decreases len - i,
        {
            let v = match d {
                Some(x) => {
                    if i == 0 {
                        x
                    } else if i - 1 < x {
                        i - 1
                    } else {
                        i
                    }
                },
                None => i,
            };
            r.push(v);
            i = i + 1;
        }
        r
    }
}

} // verus!
