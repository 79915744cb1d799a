//! Turning runfile text into a command tree, or into the list of everything
//! wrong with it.
//!
//! A runfile is a sequence of items, separated by white space:
//! - `/// text` lines document the command that follows them;
//! - `// text` lines are comments;
//! - `sub NAME { items }` is a subcommand block;
//! - `include NAME "PATH"` asks for the runfile at `PATH` to be merged into
//!   the current scope as the include `NAME`;
//! - `TAG NAME(PARAMS) { BODY }` is a command, where `TAG` names a language,
//!   the parameter list is optional and the body runs to the brace that
//!   balances the opening one.
use vstd::prelude::*;
use crate::lang::{lang_from_tag, lang_of_tag, same_text};
use crate::tree::{command_names, lemma_first_index_found, Command, RunTree};

verus! {

/// A problem found in the source, over the characters `start..end`.
/// Positions count characters, not bytes, as the diagnostic renderer
/// (ariadne) counts them by default.
#[derive(Clone, Debug, PartialEq, Eq)]
pub struct Diagnostic {
    pub start: usize,
    pub end: usize,
    pub message: String,
}

/// An include directive: the runfile at `path` is to be merged into node
/// `node` under `name`.
#[derive(Clone, Debug, PartialEq, Eq)]
pub struct IncludeRequest {
    pub node: usize,
    pub name: String,
    pub path: String,
}

/// A parsed runfile: its tree and the includes it asks for, in order.
#[derive(Clone, Debug, PartialEq, Eq)]
pub struct Runfile {
    pub tree: RunTree,
    pub includes: Vec<IncludeRequest>,
}

/// Every diagnostic of `d` covers a range of a source of `len` characters.
pub open spec fn within(d: Seq<Diagnostic>, len: nat) -> bool {
    forall|i: int| 0 <= i < d.len() ==> (#[trigger] d[i]).start <= d[i].end && d[i].end <= len
}

pub open spec fn is_word_char(c: char) -> bool {
    ('a' <= c <= 'z') || ('A' <= c <= 'Z') || ('0' <= c <= '9') || c == '_' || c == '-' || c == '+'
        || c == '#' || c == '.'
}

pub open spec fn is_blank(c: char) -> bool {
    c == ' ' || c == '\t' || c == '\n' || c == '\r'
}

/// `c` was read from `s`: its name is a stretch of `s`, its body is the text
/// between a `{` and a `}` of `s`, and its language is named by a stretch of `s`.
pub open spec fn read_from(s: Seq<char>, c: Command) -> bool {
    exists|a: int, b: int, x: int, y: int, t: int, u: int|
        #![trigger s.subrange(a, b), s.subrange(x, y), s.subrange(t, u)]
        0 <= a <= b <= s.len() && 0 < x <= y < s.len() && 0 <= t <= u <= s.len() && c.name@ == s.subrange(a, b)
            && s[x - 1] == '{' && s[y] == '}' && c.body@ == s.subrange(x, y) && lang_of_tag(s.subrange(t, u))
            == Some(c.lang)
}

/// Every command of `t` was read from `s`.
pub open spec fn all_read_from(s: Seq<char>, t: RunTree) -> bool {
    forall|n: int, i: int| 0 <= n < t.nodes@.len() && 0 <= i < t.cmds(n).len() ==> read_from(s, #[trigger] t.cmds(n)[i])
}

/// The first position at or after `p` that does not hold white space.
pub open spec fn blank_end(s: Seq<char>, p: int) -> int
    decreases s.len() - p,
{
    if 0 <= p < s.len() && is_blank(s[p]) {
        blank_end(s, p + 1)
    } else {
        p
    }
}

/// The end of the run of word characters that starts at `p`.
pub open spec fn word_stop(s: Seq<char>, p: int) -> int
    decreases s.len() - p,
{
    if 0 <= p < s.len() && is_word_char(s[p]) {
        word_stop(s, p + 1)
    } else {
        p
    }
}

/// Every character before `k` is white space.
pub open spec fn blank_before(s: Seq<char>, k: int) -> bool {
    forall|j: int| 0 <= j < k ==> is_blank(#[trigger] s[j])
}

/// The position of the `}` that balances the braces opened before `i`,
/// `depth` of them being open at `i`.
pub open spec fn brace_close(s: Seq<char>, i: int, depth: int) -> Option<int>
    decreases s.len() - i,
{
    if i < 0 || i >= s.len() {
        None
    } else if s[i] == '{' {
        brace_close(s, i + 1, depth + 1)
    } else if s[i] == '}' {
        if depth <= 1 {
            Some(i)
        } else {
            brace_close(s, i + 1, depth - 1)
        }
    } else {
        brace_close(s, i + 1, depth)
    }
}

/// Where the name of a command starting at `k` begins and ends, and where
/// its `{` stands when it has no parameter list.
pub open spec fn name_start(s: Seq<char>, k: int) -> int {
    blank_end(s, word_stop(s, k))
}

pub open spec fn name_end(s: Seq<char>, k: int) -> int {
    word_stop(s, name_start(s, k))
}

pub open spec fn open_brace(s: Seq<char>, k: int) -> int {
    blank_end(s, name_end(s, k))
}

/// A command `TAG NAME {` without parameter list starts at `k`, with a
/// known language tag.
pub open spec fn command_head(s: Seq<char>, k: int) -> bool {
    &&& 0 <= k < s.len()
    &&& is_word_char(s[k])
    &&& lang_of_tag(s.subrange(k, word_stop(s, k))) is Some
    &&& name_start(s, k) < name_end(s, k)
    &&& open_brace(s, k) < s.len()
    &&& s[open_brace(s, k)] == '{'
}

/// A whole command `TAG NAME { BODY }` starts at `k`, its body balanced.
pub open spec fn command_at(s: Seq<char>, k: int) -> bool {
    command_head(s, k) && brace_close(s, open_brace(s, k) + 1, 1) is Some
}

/// `c` is the command written at `k`.
pub open spec fn is_command_at(s: Seq<char>, k: int, c: Command) -> bool {
    &&& c.name@ == s.subrange(name_start(s, k), name_end(s, k))
    &&& Some(c.lang) == lang_of_tag(s.subrange(k, word_stop(s, k)))
    &&& c.params@.len() == 0
    &&& c.body@ == s.subrange(open_brace(s, k) + 1, brace_close(s, open_brace(s, k) + 1, 1)->0)
}

/// The first item of the source is a whole command.
pub open spec fn first_item_command(s: Seq<char>) -> bool {
    command_at(s, blank_end(s, 0))
}

/// An item starting at `k` that the grammar rejects whatever follows it: a
/// `}` with no block open, a character that starts no item, a word that is
/// neither `sub`, `include` nor a language tag, or a command whose body no
/// `}` closes.
pub open spec fn rejected_at(s: Seq<char>, k: int) -> bool {
    0 <= k < s.len() && {
        ||| s[k] == '}'
        ||| (!is_word_char(s[k]) && !is_blank(s[k]) && s[k] != '/' && s[k] != '}')
        ||| (is_word_char(s[k]) && s.subrange(k, word_stop(s, k)) != "sub"@ && s.subrange(k, word_stop(s, k))
            != "include"@ && lang_of_tag(s.subrange(k, word_stop(s, k))) is None)
        ||| (command_head(s, k) && brace_close(s, open_brace(s, k) + 1, 1) is None)
    }
}

/// The first item of the source is rejected.
pub open spec fn first_item_rejected(s: Seq<char>) -> bool {
    rejected_at(s, blank_end(s, 0))
}

/// The words `sub` and `include` name no language.
proof fn lemma_keywords_are_no_tags()
    ensures
        lang_of_tag("sub"@) is None,
        lang_of_tag("include"@) is None,
{
    reveal_strlit("sub");
    reveal_strlit("include");
    reveal_strlit("cmd");
    reveal_strlit("fn");
    reveal_strlit("sh");
    reveal_strlit("shell");
    reveal_strlit("bash");
    reveal_strlit("rs");
    reveal_strlit("rust");
    reveal_strlit("c");
    reveal_strlit("c++");
    reveal_strlit("cpp");
    reveal_strlit("cplusplus");
    reveal_strlit("c#");
    reveal_strlit("cs");
    reveal_strlit("csharp");
    reveal_strlit("py");
    reveal_strlit("python");
    reveal_strlit("js");
    reveal_strlit("javascript");
    assert("sub"@[1] != "shell"@[1] && "sub"@[0] != "bash"@[0] && "sub"@[0] != "rust"@[0] && "sub"@[0] != "cpp"@[0]);
    assert("sub"@[0] != "csharp"@[0] && "sub"@[0] != "python"@[0] && "sub"@[0] != "javascript"@[0]);
    assert("sub"@[0] != "cplusplus"@[0]);
    assert("sub"@[0] != "cmd"@[0] && "sub"@[0] != "rs"@[0] && "sub"@[0] != "c"@[0] && "sub"@[0] != "py"@[0]);
    assert("sub"@[0] != "js"@[0] && "sub"@[0] != "fn"@[0] && "sub"@[0] != "cs"@[0] && "sub"@[0] != "c#"@[0]);
    assert("sub"@[0] != "c++"@[0]);
    assert("sub"@[1] != "sh"@[1]);
    assert("include"@[0] != "cmd"@[0] && "include"@[0] != "rs"@[0] && "include"@[0] != "c"@[0]);
    assert("include"@[0] != "py"@[0] && "include"@[0] != "js"@[0] && "include"@[0] != "fn"@[0]);
    assert("include"@[0] != "cs"@[0] && "include"@[0] != "c#"@[0] && "include"@[0] != "c++"@[0]);
    assert("include"@[0] != "sh"@[0] && "include"@[0] != "shell"@[0] && "include"@[0] != "bash"@[0]);
    assert("include"@[0] != "rust"@[0] && "include"@[0] != "cpp"@[0] && "include"@[0] != "cplusplus"@[0]);
    assert("include"@[0] != "csharp"@[0] && "include"@[0] != "python"@[0] && "include"@[0] != "javascript"@[0]);
}

proof fn lemma_blank_end_prefix(s: Seq<char>, j: int)
    requires
        0 <= j <= s.len(),
        blank_before(s, j),
    ensures
        j <= blank_end(s, j),
        blank_before(s, blank_end(s, j)),
    decreases s.len() - j,
{
    if 0 <= j < s.len() && is_blank(s[j]) {
        assert(blank_before(s, j + 1));
        lemma_blank_end_prefix(s, j + 1);
    }
}

fn word_char(c: char) -> (r: bool)
    ensures
        r == is_word_char(c),
{
    ('a' <= c && c <= 'z') || ('A' <= c && c <= 'Z') || ('0' <= c && c <= '9') || c == '_' || c == '-'
        || c == '+' || c == '#' || c == '.'
}

/// The characters of `s`, in order.
pub fn chars_of(s: &str) -> (r: Vec<char>)
    ensures
        r@ == s@,
{
    let n = s.unicode_len();
    let mut r: Vec<char> = Vec::new();
    let mut i: usize = 0;
    while i < n
        invariant
            i <= n,
            n == s@.len(),
            r@ == s@.subrange(0, i as int),
        decreases n - i,
    {
        r.push(s.get_char(i));
        assert(s@.subrange(0, i + 1) == s@.subrange(0, i as int).push(s@[i as int]));
        i = i + 1;
    }
    assert(s@.subrange(0, n as int) == s@);
    r
}

/// The first position at or after `pos` that is not white space.
fn skip_blank(cs: &Vec<char>, pos: usize) -> (r: usize)
    requires
        pos <= cs@.len(),
    ensures
        pos <= r <= cs@.len(),
        r < cs@.len() ==> !is_blank(cs@[r as int]),
        r == blank_end(cs@, pos as int),
{
    let mut i = pos;
    while i < cs.len() && (cs[i] == ' ' || cs[i] == '\t' || cs[i] == '\n' || cs[i] == '\r')
        invariant
            pos <= i <= cs@.len(),
            blank_end(cs@, i as int) == blank_end(cs@, pos as int),
        decreases cs@.len() - i,
    {
        i = i + 1;
    }
    i
}

/// The end of the word that starts at `pos`.
fn word_end(cs: &Vec<char>, pos: usize) -> (r: usize)
    requires
        pos <= cs@.len(),
    ensures
        pos <= r <= cs@.len(),
        r == word_stop(cs@, pos as int),
{
    let mut i = pos;
    while i < cs.len() && word_char(cs[i])
        invariant
            pos <= i <= cs@.len(),
            word_stop(cs@, i as int) == word_stop(cs@, pos as int),
        decreases cs@.len() - i,
    {
        i = i + 1;
    }
    i
}

/// The position of the line break that ends the line holding `pos`, or the end.
fn line_end(cs: &Vec<char>, pos: usize) -> (r: usize)
    requires
        pos <= cs@.len(),
    ensures
        pos <= r <= cs@.len(),
{
    let mut i = pos;
    while i < cs.len() && cs[i] != '\n'
        invariant
            pos <= i <= cs@.len(),
        decreases cs@.len() - i,
    {
        i = i + 1;
    }
    i
}

/// The position of the `}` that balances the `{` at `open`, if there is one.
fn closing_brace(cs: &Vec<char>, open: usize) -> (r: Option<usize>)
    requires
        open < cs@.len(),
    ensures
        r matches Some(c) ==> open < c < cs@.len() && cs@[c as int] == '}',
        r is None <==> brace_close(cs@, open + 1, 1) is None,
        r matches Some(c) ==> brace_close(cs@, open + 1, 1) == Some(c as int),
{
    let n = cs.len();
    let mut depth: usize = 1;
    let mut i = open + 1;
    while i < cs.len()
        invariant
            open < i <= cs@.len(),
            depth >= 1,
            depth <= i - open,
            brace_close(cs@, i as int, depth as int) == brace_close(cs@, open + 1, 1),
        decreases cs@.len() - i,
    {
        if cs[i] == '{' {
            depth = depth + 1;
        } else if cs[i] == '}' {
            if depth == 1 {
                return Some(i);
            }
            depth = depth - 1;
        }
        i = i + 1;
    }
    None
}

/// The characters `a..b` of `src`.
fn text(src: &str, a: usize, b: usize) -> (r: String)
    requires
        a <= b <= src@.len(),
    ensures
        r@ == src@.subrange(a as int, b as int),
{
    src.substring_char(a, b).to_owned()
}

fn diagnostic(start: usize, end: usize, message: &str) -> (r: Diagnostic)
    ensures
        r.start == start && r.end == end && r.message@ == message@,
{
    Diagnostic { start, end, message: String::from_str(message) }
}

/// The position of the first `"` at or after `pos` on the same line.
fn closing_quote(cs: &Vec<char>, pos: usize) -> (r: Option<usize>)
    requires
        pos <= cs@.len(),
    ensures
        r matches Some(q) ==> pos <= q < cs@.len(),
{
    let mut i = pos;
    while i < cs.len() && cs[i] != '\n'
        invariant
            pos <= i <= cs@.len(),
        decreases cs@.len() - i,
    {
        if cs[i] == '"' {
            return Some(i);
        }
        i = i + 1;
    }
    None
}

/// No two include directives name the same include of the same scope.
pub open spec fn includes_distinct(r: Seq<IncludeRequest>) -> bool {
    forall|i: int, j: int|
        0 <= i < r.len() && 0 <= j < r.len() && i != j ==> !((#[trigger] r[i]).node == (#[trigger] r[j]).node
            && r[i].name@ == r[j].name@)
}

/// Whether a directive of `reqs` already names the include `name` of `node`.
fn include_declared(reqs: &Vec<IncludeRequest>, node: usize, name: &str) -> (r: bool)
    ensures
        r == exists|i: int| 0 <= i < reqs@.len() && (#[trigger] reqs@[i]).node == node && reqs@[i].name@ == name@,
{
    let target = name.to_owned();
    let mut i: usize = 0;
    while i < reqs.len()
        invariant
            i <= reqs@.len(),
            target@ == name@,
            forall|k: int| 0 <= k < i ==> !((#[trigger] reqs@[k]).node == node && reqs@[k].name@ == name@),
        decreases reqs@.len() - i,
    {
        if reqs[i].node == node && reqs[i].name == target {
            return true;
        }
        i = i + 1;
    }
    false
}

/// Whether `cs[pos..]` starts with the characters of `lit`.
fn starts_with(cs: &Vec<char>, pos: usize, lit: &str) -> (r: bool)
    requires
        pos <= cs@.len(),
    ensures
        r ==> pos + lit@.len() <= cs@.len() && cs@.subrange(pos as int, pos + lit@.len()) == lit@,
{
    let n = lit.unicode_len();
    if n > cs.len() - pos {
        return false;
    }
    let mut i: usize = 0;
    while i < n
        invariant
            n == lit@.len(),
            pos + n <= cs.len(),
            i <= n,
            forall|j: int| 0 <= j < i ==> cs@[pos + j] == lit@[j],
        decreases n - i,
    {
        if cs[pos + i] != lit.get_char(i) {
            return false;
        }
        i = i + 1;
    }
    assert(cs@.subrange(pos as int, pos + n) =~= lit@);
    true
}

/// Parses a runfile. Succeeds with the command tree when the source has no
/// problem; otherwise fails with every problem found, each one over a
/// range of the source's characters. A duplicate name in a scope, an unknown
/// language tag, a missing name or brace, an unbalanced body or block and a
/// stray character are problems.
///
/// Every command of a tree it returns was read from the source; a first item
/// that the grammar rejects makes it fail; a first item that is a whole
/// command becomes the first command of the root.
#[verifier::rlimit(60)]
pub fn parse(src: &str) -> (r: Result<Runfile, Vec<Diagnostic>>)
    ensures
        r matches Ok(f) ==> all_read_from(src@, f.tree) && includes_distinct(f.includes@),
        r matches Ok(f) ==> f.tree.wf() && f.tree.names_unique() && forall|i: int|
            0 <= i < f.includes@.len() ==> (#[trigger] f.includes@[i]).node < f.tree.nodes@.len(),
        (forall|k: int| 0 <= k < src@.len() ==> is_blank(#[trigger] src@[k])) ==> (r matches Ok(f)
            && f.tree.nodes@.len() == 1 && f.tree.cmds(0).len() == 0 && f.includes@.len() == 0),
        r matches Err(d) ==> d@.len() > 0 && within(d@, src@.len()),
        first_item_rejected(src@) ==> r is Err,
        first_item_command(src@) ==> (r matches Ok(f) ==> f.tree.cmds(0).len() > 0 && is_command_at(
            src@,
            blank_end(src@, 0),
            f.tree.cmds(0)[0],
        )),
{
    let cs = chars_of(src);
    let len = cs.len();
    let mut tree = RunTree::new();
    let mut diags: Vec<Diagnostic> = Vec::new();
    let mut includes: Vec<IncludeRequest> = Vec::new();
    // open subcommand blocks: node and position of the `{`
    let mut open: Vec<(usize, usize)> = Vec::new();
    let mut cur: usize = 0;
    let mut doc: Option<String> = None;
    let mut pos: usize = 0;
    while pos < len
        invariant
            len == cs@.len(),
            cs@ == src@,
            pos <= len,
            tree.wf(),
            tree.names_unique(),
            cur < tree.nodes@.len(),
            tree.nodes@.len() <= pos + 1,
            forall|k: int| 0 <= k < open@.len() ==> (#[trigger] open@[k]).0 < tree.nodes@.len() && open@[k].1 < len,
            within(diags@, len as nat),
            forall|i: int| 0 <= i < includes@.len() ==> (#[trigger] includes@[i]).node < tree.nodes@.len(),
            (forall|k: int| 0 <= k < pos ==> is_blank(#[trigger] cs@[k])) ==> (diags@.len() == 0
                && includes@.len() == 0 && tree.nodes@.len() == 1 && tree.cmds(0).len() == 0
                && open@.len() == 0 && cur == 0),
            (exists|k: int| 0 <= k < pos && blank_before(cs@, k) && rejected_at(cs@, k)) ==> diags@.len() > 0,
            all_read_from(src@, tree),
            includes_distinct(includes@),
            forall|k: int| 0 <= k < pos && blank_before(cs@, k) && command_at(cs@, k) ==> tree.cmds(0).len() > 0
                && is_command_at(cs@, k, #[trigger] tree.cmds(0)[0]),
        decreases len - pos,
    {
        let c = cs[pos];
        let ghost p0 = pos as int;
        let ghost n0 = diags@.len();
        let ghost seen = exists|k: int| 0 <= k < p0 && blank_before(cs@, k) && rejected_at(cs@, k);
        let ghost fresh = blank_before(cs@, p0) && rejected_at(cs@, p0);
        let ghost fresh_cmd = blank_before(cs@, p0) && command_at(cs@, p0);
        let ghost cmds0 = tree.cmds(0);
        proof {
            reveal_strlit("///");
            reveal_strlit("//");
        }
        if c == ' ' || c == '\t' || c == '\n' || c == '\r' {
            pos = pos + 1;
        } else if starts_with(&cs, pos, "///") {
            assert(cs@[pos as int] == cs@.subrange(pos as int, pos + 3)[0]);
            let e = line_end(&cs, pos + 3);
            let line = text(src, pos + 3, e);
            doc = match doc {
                None => Some(line),
                Some(d) => {
                    let d = d.concat("\n");
                    Some(d.concat(line.as_str()))
                },
            };
            pos = if e > pos + 3 { e } else { pos + 3 };
        } else if starts_with(&cs, pos, "//") {
            assert(cs@[pos as int] == cs@.subrange(pos as int, pos + 2)[0]);
            let e = line_end(&cs, pos + 2);
            pos = if e > pos + 2 { e } else { pos + 2 };
        } else if c == '}' {
            assert(fresh ==> open@.len() == 0);
            match open.pop() {
                Some(_) => {
                    cur = match open.last() {
                        Some(p) => p.0,
                        None => 0,
                    };
                },
                None => {
                    diags.push(diagnostic(pos, pos + 1, "unexpected `}`"));
                },
            }
            doc = None;
            pos = pos + 1;
        } else {
            let we = word_end(&cs, pos);
            if we == pos {
                diags.push(diagnostic(pos, pos + 1, "unexpected character"));
                pos = pos + 1;
            } else {
                let word = text(src, pos, we);
                proof {
                    lemma_keywords_are_no_tags();
                }
                let ns = skip_blank(&cs, we);
                let ne = word_end(&cs, ns);
                if ne == ns {
                    diags.push(diagnostic(pos, we, "expected a name after this"));
                    pos = we;
                } else {
                    let name = text(src, ns, ne);
                    if same_text(word.as_str(), "include") {
                        let q = skip_blank(&cs, ne);
                        if q < len && cs[q] == '"' {
                            match closing_quote(&cs, q + 1) {
                                Some(e) => {
                                    let path = text(src, q + 1, e);
                                    if include_declared(&includes, cur, name.as_str()) {
                                        diags.push(diagnostic(ns, ne, "an include of this name already exists here"));
                                    } else {
                                        let ghost before = includes@;
                                        includes.push(IncludeRequest { node: cur, name, path });
                                        assert(includes@ == before.push(includes@[before.len() as int]));
                                    }
                                    pos = e + 1;
                                },
                                None => {
                                    diags.push(diagnostic(q, q + 1, "unterminated path"));
                                    pos = q + 1;
                                },
                            }
                        } else {
                            diags.push(diagnostic(ns, ne, "expected a quoted path after the include's name"));
                            pos = ne;
                        }
                    } else if same_text(word.as_str(), "sub") {
                        let b = skip_blank(&cs, ne);
                        if b < len && cs[b] == '{' {
                            match tree.add_block(cur, name) {
                                Some(k) => {
                                    open.push((k, b));
                                    cur = k;
                                },
                                None => {
                                    diags.push(diagnostic(ns, ne, "a subcommand block of this name already exists here"));
                                },
                            }
                            pos = b + 1;
                        } else {
                            diags.push(diagnostic(ns, ne, "expected `{` after the block's name"));
                            pos = ne;
                        }
                    } else {
                        let mut params: Vec<String> = Vec::new();
                        let mut p = skip_blank(&cs, ne);
                        let mut ok = true;
                        if p < len && cs[p] == '(' {
                            assert(fresh ==> lang_of_tag(word@) is None);
                            let lp = p;
                            p = p + 1;
                            let mut closed = false;
                            while p < len && !closed
                                invariant
                                    len == cs@.len(),
                                    cs@ == src@,
                                    lp < p <= len,
                                    fresh ==> lang_of_tag(word@) is None,
                                decreases len - p,
                            {
                                let q = skip_blank(&cs, p);
                                if q < len && cs[q] == ')' {
                                    closed = true;
                                    p = q + 1;
                                } else if q < len && cs[q] == ',' {
                                    p = q + 1;
                                } else {
                                    let qe = word_end(&cs, q);
                                    if qe > q {
                                        params.push(text(src, q, qe));
                                        p = qe;
                                    } else {
                                        p = q;
                                        break;
                                    }
                                }
                            }
                            if !closed {
                                diags.push(diagnostic(lp, p, "unclosed parameter list"));
                                ok = false;
                            }
                            p = skip_blank(&cs, p);
                        }
                        if ok {
                            if p < len && cs[p] == '{' {
                                match closing_brace(&cs, p) {
                                    Some(e) => {
                                        let body = text(src, p + 1, e);
                                        match lang_from_tag(word.as_str()) {
                                            Some(lang) => {
                                                let cmd = Command { name, doc, params, lang, body };
                                                assert(read_from(src@, cmd)) by {
                                                    assert(cmd.name@ == src@.subrange(ns as int, ne as int));
                                                    assert(cmd.body@ == src@.subrange(p + 1, e as int));
                                                    assert(lang_of_tag(src@.subrange(pos as int, we as int)) == Some(cmd.lang));
                                                }
                                                proof {
                                                    lemma_first_index_found(command_names(tree.cmds(cur as int)), cmd.name@);
                                                }
                                                if !tree.add_command(cur, cmd) {
                                                    diags.push(diagnostic(ns, ne, "a command of this name already exists here"));
                                                }
                                            },
                                            None => {
                                                diags.push(diagnostic(pos, we, "unknown language"));
                                            },
                                        }
                                        pos = e + 1;
                                    },
                                    None => {
                                        diags.push(diagnostic(p, len, "unterminated body: no `}` balances this `{`"));
                                        pos = len;
                                    },
                                }
                            } else {
                                diags.push(diagnostic(ns, ne, "expected `{` before the command's body"));
                                pos = if p > ne { p } else { ne };
                            }
                        } else {
                            pos = if p > ne { p } else { ne };
                        }
                    }
                }
            }
            doc = None;
        }
        proof {
            assert(fresh ==> diags@.len() > 0);
            assert(fresh_cmd ==> tree.cmds(0).len() > 0 && is_command_at(cs@, p0, tree.cmds(0)[0]));
            assert forall|k: int| 0 <= k < pos && blank_before(cs@, k) && command_at(cs@, k) implies tree.cmds(0).len() > 0
                && is_command_at(cs@, k, #[trigger] tree.cmds(0)[0]) by {
                if k < p0 {
                } else if k == p0 {
                    assert(fresh_cmd);
                } else {
                    assert(is_blank(cs@[p0]));
                }
            }
            assert forall|k: int| 0 <= k < pos && blank_before(cs@, k) && rejected_at(cs@, k) implies diags@.len() > 0 by {
                if k < p0 {
                    assert(seen);
                } else if k == p0 {
                    assert(fresh);
                } else {
                    assert(is_blank(cs@[p0]));
                }
            }
        }
    }
    while open.len() > 0
        invariant
            forall|k: int| 0 <= k < open@.len() ==> (#[trigger] open@[k]).1 < len,
            within(diags@, len as nat),
            len == cs@.len(),
            cs@ == src@,
            tree.wf(),
            tree.names_unique(),
            forall|i: int| 0 <= i < includes@.len() ==> (#[trigger] includes@[i]).node < tree.nodes@.len(),
            (forall|k: int| 0 <= k < len ==> is_blank(#[trigger] cs@[k])) ==> (diags@.len() == 0
                && includes@.len() == 0 && tree.nodes@.len() == 1 && tree.cmds(0).len() == 0
                && open@.len() == 0),
            (exists|k: int| 0 <= k < len && blank_before(cs@, k) && rejected_at(cs@, k)) ==> diags@.len() > 0,
            all_read_from(src@, tree),
            includes_distinct(includes@),
            forall|k: int| 0 <= k < len && blank_before(cs@, k) && command_at(cs@, k) ==> tree.cmds(0).len() > 0
                && is_command_at(cs@, k, #[trigger] tree.cmds(0)[0]),
        decreases open@.len(),
    {
        let top = open.pop().unwrap();
        diags.push(diagnostic(top.1, top.1 + 1, "unclosed subcommand block"));
    }
    proof {
        lemma_blank_end_prefix(cs@, 0);
        if first_item_rejected(src@) {
            assert(blank_before(cs@, blank_end(cs@, 0)));
        }
    }
    if diags.len() == 0 {
        Ok(Runfile { tree, includes })
    } else {
        Err(diags)
    }
}

} // verus!
