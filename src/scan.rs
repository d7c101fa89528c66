use crate::text::{
    ends_with, ends_with_at, find, find_at, first_word, first_word_bounds, lemma_find_from_bounds,
    line_bounds, lines, starts_with, starts_with_at, strip_all, strip_all_from, to_chars, trim,
    trim_bounds, views,
};
use vstd::prelude::*;

verus! {

/// The text of `line` after the first occurrence of `kw`, if `kw` occurs.
pub open spec fn after_keyword(line: Seq<char>, kw: Seq<char>) -> Option<Seq<char>> {
    match find(line, kw) {
        Some(st) => Some(line.subrange(st + kw.len(), line.len() as int)),
        None => None,
    }
}

/// Name of the function a line declares: what stands between `pub fn ` and
/// the next `(`, trimmed.
pub open spec fn function_name(line: Seq<char>) -> Option<Seq<char>> {
    match after_keyword(line, "pub fn "@) {
        Some(after) => match find(after, "("@) {
            Some(p) => Some(trim(after.subrange(0, p))),
            None => None,
        },
        None => None,
    }
}

/// Name of the type a line declares after `kw`: the first word that follows.
pub open spec fn declared_name(line: Seq<char>, kw: Seq<char>) -> Option<Seq<char>> {
    match after_keyword(line, kw) {
        Some(after) => first_word(after),
        None => None,
    }
}

fn string_of(s: &str, c: &Vec<char>, a: usize, b: usize) -> (r: String)
    requires
        c@ == s@,
        a <= b <= c@.len(),
    ensures
        r@ == c@.subrange(a as int, b as int),
{
    String::from_str(s.substring_char(a, b))
}

/// Finds `kw` in `line` and returns where the text after it starts.
fn keyword_end(c: &Vec<char>, kw: &Vec<char>) -> (r: Option<usize>)
    ensures
        r is None <==> after_keyword(c@, kw@) is None,
        r matches Some(e) ==> e <= c@.len() && Some(c@.subrange(e as int, c@.len() as int))
            == after_keyword(c@, kw@),
{
    match find_at(c, 0, c.len(), kw) {
        None => {
            assert(c@.subrange(0, c@.len() as int) =~= c@);
            None
        },
        Some(st) => {
            proof {
                assert(c@.subrange(0, c@.len() as int) =~= c@);
                lemma_find_from_bounds(c@, kw@, 0);
            }
            Some(st + kw.len())
        },
    }
}

/// Name of the function declared by a `pub fn` line.
pub fn extract_function_name(line: &str) -> (r: Option<String>)
    ensures
        r is None <==> function_name(line@) is None,
        r matches Some(n) ==> Some(n@) == function_name(line@),
{
    let c = to_chars(line);
    let kw = to_chars("pub fn ");
    let paren = to_chars("(");
    match keyword_end(&c, &kw) {
        None => None,
        Some(from) => {
            let ghost after = c@.subrange(from as int, c@.len() as int);
            match find_at(&c, from, c.len(), &paren) {
                None => None,
                Some(k) => {
                    proof {
                        lemma_find_from_bounds(after, paren@, 0);
                        assert(after.subrange(0, k as int) =~= c@.subrange(from as int, from + k));
                    }
                    let (a, b) = trim_bounds(&c, from, from + k);
                    Some(string_of(line, &c, a, b))
                },
            }
        },
    }
}

fn extract_type_name(line: &str, kw: &str) -> (r: Option<String>)
    ensures
        r is None <==> declared_name(line@, kw@) is None,
        r matches Some(n) ==> Some(n@) == declared_name(line@, kw@),
{
    let c = to_chars(line);
    let k = to_chars(kw);
    match keyword_end(&c, &k) {
        None => None,
        Some(from) => match first_word_bounds(&c, from, c.len()) {
            None => None,
            Some((a, b)) => Some(string_of(line, &c, a, b)),
        },
    }
}

/// Name of the struct declared by a `pub struct` line, generics included.
pub fn extract_struct_name(line: &str) -> (r: Option<String>)
    ensures
        r is None <==> declared_name(line@, "pub struct "@) is None,
        r matches Some(n) ==> Some(n@) == declared_name(line@, "pub struct "@),
{
    extract_type_name(line, "pub struct ")
}

/// Name of the enum declared by a `pub enum` line, generics included.
pub fn extract_enum_name(line: &str) -> (r: Option<String>)
    ensures
        r is None <==> declared_name(line@, "pub enum "@) is None,
        r matches Some(n) ==> Some(n@) == declared_name(line@, "pub enum "@),
{
    extract_type_name(line, "pub enum ")
}

/// One entry as a list: empty for `None`.
pub open spec fn opt_seq(o: Option<Seq<char>>) -> Seq<Seq<char>> {
    match o {
        Some(x) => seq![x],
        None => Seq::empty(),
    }
}

/// The public item a trimmed line declares: `fn name`, `struct Name`,
/// `enum Name`, or a `pub use` line as it stands.
pub open spec fn public_item(t: Seq<char>) -> Option<Seq<char>> {
    if starts_with(t, "pub fn "@) {
        match function_name(t) {
            Some(n) => Some("fn "@ + n),
            None => None,
        }
    } else if starts_with(t, "pub struct "@) {
        match declared_name(t, "pub struct "@) {
            Some(n) => Some("struct "@ + n),
            None => None,
        }
    } else if starts_with(t, "pub enum "@) {
        match declared_name(t, "pub enum "@) {
            Some(n) => Some("enum "@ + n),
            None => None,
        }
    } else if starts_with(t, "pub use "@) {
        Some(t)
    } else {
        None
    }
}

/// Public items of the lines from the `k`-th on.
pub open spec fn public_items_from(ls: Seq<Seq<char>>, k: int) -> Seq<Seq<char>>
    decreases ls.len() - k,
{
    if k < 0 || k >= ls.len() {
        Seq::empty()
    } else {
        opt_seq(public_item(trim(ls[k]))) + public_items_from(ls, k + 1)
    }
}

/// Text of a documentation line: after its `//!` or `///` markers, trimmed.
pub open spec fn doc_text(t: Seq<char>) -> Option<Seq<char>> {
    if starts_with(t, "//!"@) {
        Some(trim(strip_all(t, "//!"@)))
    } else if starts_with(t, "///"@) {
        Some(trim(strip_all(t, "///"@)))
    } else {
        None
    }
}

/// Documentation texts of the lines from the `k`-th on.
pub open spec fn docs_from(ls: Seq<Seq<char>>, k: int) -> Seq<Seq<char>>
    decreases ls.len() - k,
{
    if k < 0 || k >= ls.len() {
        Seq::empty()
    } else {
        opt_seq(doc_text(trim(ls[k]))) + docs_from(ls, k + 1)
    }
}

/// `pub use` lines, trimmed, from the `k`-th line on.
pub open spec fn reexports_from(ls: Seq<Seq<char>>, k: int) -> Seq<Seq<char>>
    decreases ls.len() - k,
{
    if k < 0 || k >= ls.len() {
        Seq::empty()
    } else {
        (if starts_with(trim(ls[k]), "pub use "@) {
            seq![trim(ls[k])]
        } else {
            Seq::empty()
        }) + reexports_from(ls, k + 1)
    }
}

/// A quoted workspace member, `"name"` or `"name",`.
pub open spec fn member_entry(t: Seq<char>) -> Option<Seq<char>> {
    if starts_with(t, "\""@) {
        let s = t.drop_first();
        if ends_with(s, "\""@) {
            Some(s.drop_last())
        } else if ends_with(s, "\","@) {
            Some(s.subrange(0, s.len() - 2))
        } else {
            None
        }
    } else {
        None
    }
}

/// Workspace members listed from the `k`-th line on; `inside` tells whether
/// a `members = [` line has opened the list. A line `]` ends the scan.
pub open spec fn members_from(ls: Seq<Seq<char>>, k: int, inside: bool) -> Seq<Seq<char>>
    decreases ls.len() - k,
{
    if k < 0 || k >= ls.len() {
        Seq::empty()
    } else {
        let t = trim(ls[k]);
        if starts_with(t, "members = ["@) {
            members_from(ls, k + 1, true)
        } else if inside {
            if t == "]"@ {
                Seq::empty()
            } else {
                opt_seq(member_entry(t)) + members_from(ls, k + 1, true)
            }
        } else {
            members_from(ls, k + 1, false)
        }
    }
}

/// Name of a dependency line `name = ...`: what precedes the first `=`,
/// trimmed, when not empty.
pub open spec fn dependency_name(t: Seq<char>) -> Option<Seq<char>> {
    match find(t, "="@) {
        Some(e) => if trim(t.subrange(0, e)).len() > 0 {
            Some(trim(t.subrange(0, e)))
        } else {
            None
        },
        None => None,
    }
}

/// Dependencies named from the `k`-th line on; `inside` tells whether the
/// `[dependencies]` table is open. The next table header ends the scan.
pub open spec fn dependencies_from(ls: Seq<Seq<char>>, k: int, inside: bool) -> Seq<Seq<char>>
    decreases ls.len() - k,
{
    if k < 0 || k >= ls.len() {
        Seq::empty()
    } else {
        let t = trim(ls[k]);
        if t == "[dependencies]"@ {
            dependencies_from(ls, k + 1, true)
        } else if inside {
            if starts_with(t, "["@) {
                Seq::empty()
            } else {
                opt_seq(dependency_name(t)) + dependencies_from(ls, k + 1, true)
            }
        } else {
            dependencies_from(ls, k + 1, false)
        }
    }
}

proof fn lemma_push_views(out: Seq<String>, s: String, rest: Seq<Seq<char>>)
    ensures
        views(out.push(s)) + rest == views(out) + (seq![s@] + rest),
{
    assert(views(out.push(s)) =~= views(out).push(s@));
    assert(views(out.push(s)) + rest =~= views(out) + (seq![s@] + rest));
}

proof fn lemma_equal_when_prefix(s: Seq<char>, p: Seq<char>)
    requires
        starts_with(s, p),
        s.len() == p.len(),
    ensures
        s == p,
{
    assert(s.subrange(0, p.len() as int) =~= s);
}

/// Whether `c[a..b]` is exactly `p`.
fn equals_at(c: &Vec<char>, a: usize, b: usize, p: &Vec<char>) -> (r: bool)
    requires
        a <= b <= c@.len(),
    ensures
        r == (c@.subrange(a as int, b as int) == p@),
{
    if b - a != p.len() {
        return false;
    }
    let r = starts_with_at(c, a, b, p);
    proof {
        if r {
            lemma_equal_when_prefix(c@.subrange(a as int, b as int), p@);
        } else {
            if c@.subrange(a as int, b as int) == p@ {
                assert(c@.subrange(a as int, b as int).subrange(0, p@.len() as int) =~= p@);
            }
        }
    }
    r
}

fn public_item_of(t: &str) -> (r: Option<String>)
    ensures
        r is None <==> public_item(t@) is None,
        r matches Some(x) ==> Some(x@) == public_item(t@),
{
    let c = to_chars(t);
    let n = c.len();
    proof {
        assert(c@.subrange(0, n as int) =~= c@);
    }
    if starts_with_at(&c, 0, n, &to_chars("pub fn ")) {
        match extract_function_name(t) {
            Some(name) => Some(String::from_str("fn ").concat(name.as_str())),
            None => None,
        }
    } else if starts_with_at(&c, 0, n, &to_chars("pub struct ")) {
        match extract_struct_name(t) {
            Some(name) => Some(String::from_str("struct ").concat(name.as_str())),
            None => None,
        }
    } else if starts_with_at(&c, 0, n, &to_chars("pub enum ")) {
        match extract_enum_name(t) {
            Some(name) => Some(String::from_str("enum ").concat(name.as_str())),
            None => None,
        }
    } else if starts_with_at(&c, 0, n, &to_chars("pub use ")) {
        Some(String::from_str(t))
    } else {
        None
    }
}

/// Public items declared in a source file, one per line in order:
/// `fn name`, `struct Name`, `enum Name`, or the `pub use` line itself.
pub fn extract_public_items(content: &str) -> (items: Vec<String>)
    ensures
        views(items@) == public_items_from(lines(content@), 0),
{
    let c = to_chars(content);
    let bounds = line_bounds(&c);
    let ghost ls = lines(c@);
    let mut items: Vec<String> = Vec::new();
    let mut k: usize = 0;
    while k < bounds.len()
        invariant
            c@ == content@,
            ls == lines(c@),
            bounds@.len() == ls.len(),
            forall|j: int|
                0 <= j < bounds@.len() ==> (#[trigger] bounds@[j]).0 <= bounds@[j].1 <= c@.len()
                    && c@.subrange(bounds@[j].0 as int, bounds@[j].1 as int) == ls[j],
            k <= bounds@.len(),
            views(items@) + public_items_from(ls, k as int) == public_items_from(ls, 0),
        decreases bounds@.len() - k,
    {
        let (a0, b0) = bounds[k];
        let (a, b) = trim_bounds(&c, a0, b0);
        let t = string_of(content, &c, a, b);
        match public_item_of(t.as_str()) {
            Some(x) => {
                proof {
                    lemma_push_views(items@, x, public_items_from(ls, k + 1));
                }
                items.push(x);
            },
            None => {
                assert(opt_seq(public_item(trim(ls[k as int]))) + public_items_from(ls, k + 1)
                    =~= public_items_from(ls, k + 1));
            },
        }
        k = k + 1;
    }
    assert(views(items@) + public_items_from(ls, k as int) =~= views(items@));
    items
}

fn doc_text_of(content: &str, c: &Vec<char>, a: usize, b: usize) -> (r: Option<String>)
    requires
        c@ == content@,
        a <= b <= c@.len(),
    ensures
        r is None <==> doc_text(c@.subrange(a as int, b as int)) is None,
        r matches Some(x) ==> Some(x@) == doc_text(c@.subrange(a as int, b as int)),
{
    let inner = to_chars("//!");
    let outer = to_chars("///");
    let marker = if starts_with_at(c, a, b, &inner) {
        inner
    } else if starts_with_at(c, a, b, &outer) {
        outer
    } else {
        return None;
    };
    let s = strip_all_from(c, a, b, &marker);
    let (x, y) = trim_bounds(c, s, b);
    Some(string_of(content, c, x, y))
}

/// Documentation lines of a source file (`//!` and `///`), their text
/// trimmed, in order.
pub fn extract_module_docs(content: &str) -> (docs: Vec<String>)
    ensures
        views(docs@) == docs_from(lines(content@), 0),
{
    let c = to_chars(content);
    let bounds = line_bounds(&c);
    let ghost ls = lines(c@);
    let mut docs: Vec<String> = Vec::new();
    let mut k: usize = 0;
    while k < bounds.len()
        invariant
            c@ == content@,
            ls == lines(c@),
            bounds@.len() == ls.len(),
            forall|j: int|
                0 <= j < bounds@.len() ==> (#[trigger] bounds@[j]).0 <= bounds@[j].1 <= c@.len()
                    && c@.subrange(bounds@[j].0 as int, bounds@[j].1 as int) == ls[j],
            k <= bounds@.len(),
            views(docs@) + docs_from(ls, k as int) == docs_from(ls, 0),
        decreases bounds@.len() - k,
    {
        let (a0, b0) = bounds[k];
        let (a, b) = trim_bounds(&c, a0, b0);
        match doc_text_of(content, &c, a, b) {
            Some(x) => {
                proof {
                    lemma_push_views(docs@, x, docs_from(ls, k + 1));
                }
                docs.push(x);
            },
            None => {
                assert(opt_seq(doc_text(trim(ls[k as int]))) + docs_from(ls, k + 1) =~= docs_from(
                    ls,
                    k + 1,
                ));
            },
        }
        k = k + 1;
    }
    assert(views(docs@) + docs_from(ls, k as int) =~= views(docs@));
    docs
}

/// The `pub use` lines of a source file, trimmed, in order.
pub fn extract_reexports(content: &str) -> (reexports: Vec<String>)
    ensures
        views(reexports@) == reexports_from(lines(content@), 0),
{
    let c = to_chars(content);
    let bounds = line_bounds(&c);
    let pat = to_chars("pub use ");
    let ghost ls = lines(c@);
    let mut out: Vec<String> = Vec::new();
    let mut k: usize = 0;
    while k < bounds.len()
        invariant
            c@ == content@,
            pat@ == "pub use "@,
            ls == lines(c@),
            bounds@.len() == ls.len(),
            forall|j: int|
                0 <= j < bounds@.len() ==> (#[trigger] bounds@[j]).0 <= bounds@[j].1 <= c@.len()
                    && c@.subrange(bounds@[j].0 as int, bounds@[j].1 as int) == ls[j],
            k <= bounds@.len(),
            views(out@) + reexports_from(ls, k as int) == reexports_from(ls, 0),
        decreases bounds@.len() - k,
    {
        let (a0, b0) = bounds[k];
        let (a, b) = trim_bounds(&c, a0, b0);
        if starts_with_at(&c, a, b, &pat) {
            let x = string_of(content, &c, a, b);
            proof {
                lemma_push_views(out@, x, reexports_from(ls, k + 1));
            }
            out.push(x);
        } else {
            assert(Seq::<Seq<char>>::empty() + reexports_from(ls, k + 1) =~= reexports_from(
                ls,
                k + 1,
            ));
        }
        k = k + 1;
    }
    assert(views(out@) + reexports_from(ls, k as int) =~= views(out@));
    out
}

fn member_entry_of(content: &str, c: &Vec<char>, a: usize, b: usize) -> (r: Option<String>)
    requires
        c@ == content@,
        a <= b <= c@.len(),
    ensures
        r is None <==> member_entry(c@.subrange(a as int, b as int)) is None,
        r matches Some(x) ==> Some(x@) == member_entry(c@.subrange(a as int, b as int)),
{
    let quote = to_chars("\"");
    let quote_comma = to_chars("\",");
    if !starts_with_at(c, a, b, &quote) {
        return None;
    }
    proof {
        reveal_strlit("\"");
        reveal_strlit("\",");
    }
    let ghost t = c@.subrange(a as int, b as int);
    assert(t.drop_first() =~= c@.subrange(a + 1, b as int));
    if ends_with_at(c, a + 1, b, &quote) {
        assert(t.drop_first().drop_last() =~= c@.subrange(a + 1, b - 1));
        Some(string_of(content, c, a + 1, b - 1))
    } else if ends_with_at(c, a + 1, b, &quote_comma) {
        assert(t.drop_first().subrange(0, t.drop_first().len() - 2) =~= c@.subrange(a + 1, b - 2));
        Some(string_of(content, c, a + 1, b - 2))
    } else {
        None
    }
}

/// Members of a workspace `Cargo.toml`: the quoted entries after a
/// `members = [` line, up to the closing `]`.
pub fn extract_workspace_members(content: &str) -> (members: Vec<String>)
    ensures
        views(members@) == members_from(lines(content@), 0, false),
{
    let c = to_chars(content);
    let bounds = line_bounds(&c);
    let opener = to_chars("members = [");
    let closer = to_chars("]");
    let ghost ls = lines(c@);
    let mut out: Vec<String> = Vec::new();
    let mut inside = false;
    let mut k: usize = 0;
    while k < bounds.len()
        invariant
            c@ == content@,
            opener@ == "members = ["@,
            closer@ == "]"@,
            ls == lines(c@),
            bounds@.len() == ls.len(),
            forall|j: int|
                0 <= j < bounds@.len() ==> (#[trigger] bounds@[j]).0 <= bounds@[j].1 <= c@.len()
                    && c@.subrange(bounds@[j].0 as int, bounds@[j].1 as int) == ls[j],
            k <= bounds@.len(),
            views(out@) + members_from(ls, k as int, inside) == members_from(ls, 0, false),
        decreases bounds@.len() - k,
    {
        let (a0, b0) = bounds[k];
        let (a, b) = trim_bounds(&c, a0, b0);
        if starts_with_at(&c, a, b, &opener) {
            inside = true;
            k = k + 1;
        } else if inside {
            if equals_at(&c, a, b, &closer) {
                assert(members_from(ls, bounds@.len() as int, inside) =~= Seq::<Seq<char>>::empty());
                k = bounds.len();
            } else {
                match member_entry_of(content, &c, a, b) {
                    Some(x) => {
                        proof {
                            lemma_push_views(out@, x, members_from(ls, k + 1, true));
                        }
                        out.push(x);
                    },
                    None => {
                        assert(opt_seq(member_entry(trim(ls[k as int]))) + members_from(ls, k + 1, true)
                            =~= members_from(ls, k + 1, true));
                    },
                }
                k = k + 1;
            }
        } else {
            k = k + 1;
        }
    }
    assert(views(out@) + members_from(ls, k as int, inside) =~= views(out@));
    out
}

fn dependency_name_of(content: &str, c: &Vec<char>, a: usize, b: usize) -> (r: Option<String>)
    requires
        c@ == content@,
        a <= b <= c@.len(),
    ensures
        r is None <==> dependency_name(c@.subrange(a as int, b as int)) is None,
        r matches Some(x) ==> Some(x@) == dependency_name(c@.subrange(a as int, b as int)),
{
    let eq = to_chars("=");
    match find_at(c, a, b, &eq) {
        None => None,
        Some(e) => {
            let ghost t = c@.subrange(a as int, b as int);
            proof {
                lemma_find_from_bounds(t, eq@, 0);
                assert(t.subrange(0, e as int) =~= c@.subrange(a as int, a + e));
            }
            let (x, y) = trim_bounds(c, a, a + e);
            if x == y {
                None
            } else {
                Some(string_of(content, c, x, y))
            }
        },
    }
}

/// Dependencies named in the `[dependencies]` table of a `Cargo.toml`, up to the
/// next table header.
pub fn extract_dependencies(content: &str) -> (deps: Vec<String>)
    ensures
        views(deps@) == dependencies_from(lines(content@), 0, false),
{
    let c = to_chars(content);
    let bounds = line_bounds(&c);
    let header = to_chars("[dependencies]");
    let bracket = to_chars("[");
    let ghost ls = lines(c@);
    let mut out: Vec<String> = Vec::new();
    let mut inside = false;
    let mut k: usize = 0;
    while k < bounds.len()
        invariant
            c@ == content@,
            header@ == "[dependencies]"@,
            bracket@ == "["@,
            ls == lines(c@),
            bounds@.len() == ls.len(),
            forall|j: int|
                0 <= j < bounds@.len() ==> (#[trigger] bounds@[j]).0 <= bounds@[j].1 <= c@.len()
                    && c@.subrange(bounds@[j].0 as int, bounds@[j].1 as int) == ls[j],
            k <= bounds@.len(),
            views(out@) + dependencies_from(ls, k as int, inside) == dependencies_from(ls, 0, false),
        decreases bounds@.len() - k,
    {
        let (a0, b0) = bounds[k];
        let (a, b) = trim_bounds(&c, a0, b0);
        if equals_at(&c, a, b, &header) {
            inside = true;
            k = k + 1;
        } else if inside {
            if starts_with_at(&c, a, b, &bracket) {
                assert(dependencies_from(ls, bounds@.len() as int, inside) =~= Seq::<Seq<char>>::empty());
                k = bounds.len();
            } else {
                match dependency_name_of(content, &c, a, b) {
                    Some(x) => {
                        proof {
                            lemma_push_views(out@, x, dependencies_from(ls, k + 1, true));
                        }
                        out.push(x);
                    },
                    None => {
                        assert(opt_seq(dependency_name(trim(ls[k as int]))) + dependencies_from(
                            ls,
                            k + 1,
                            true,
                        ) =~= dependencies_from(ls, k + 1, true));
                    },
                }
                k = k + 1;
            }
        } else {
            k = k + 1;
        }
    }
    assert(views(out@) + dependencies_from(ls, k as int, inside) =~= views(out@));
    out
}

/// The dependency lines that a project feature asks for.
pub open spec fn feature_dep(f: Seq<char>) -> Option<Seq<char>> {
    if f == "gpu"@ {
        Some("# GPU features already included in amari"@)
    } else if f == "serde"@ {
        Some("serde = { version = \"1.0\", features = [\"derive\"] }"@)
    } else if f == "async"@ {
        Some("tokio = { version = \"1.0\", features = [\"full\"] }"@)
    } else if f == "plotting"@ {
        Some("plotters = \"0.3\""@)
    } else if f == "wasm"@ {
        Some("wasm-bindgen = \"0.2\"\njs-sys = \"0.3\"\nweb-sys = \"0.3\""@)
    } else {
        None
    }
}

/// Dependency lines of a list of features, in order; unknown features add
/// nothing.
pub open spec fn feature_dep_lines(fs: Seq<Seq<char>>) -> Seq<Seq<char>>
    decreases fs.len(),
{
    if fs.len() == 0 {
        Seq::empty()
    } else {
        feature_dep_lines(fs.drop_last()) + opt_seq(feature_dep(fs.last()))
    }
}

/// Lines joined by newlines.
pub open spec fn join_lines(ls: Seq<Seq<char>>) -> Seq<char>
    decreases ls.len(),
{
    if ls.len() == 0 {
        Seq::empty()
    } else if ls.len() == 1 {
        ls[0]
    } else {
        join_lines(ls.drop_last()) + "\n"@ + ls.last()
    }
}

/// The `Cargo.toml` snippet for a list of features: their dependency lines, or a
/// placeholder comment when there are none.
pub open spec fn feature_deps(fs: Seq<Seq<char>>) -> Seq<char> {
    if feature_dep_lines(fs).len() == 0 {
        "# Add additional dependencies as needed"@
    } else {
        join_lines(feature_dep_lines(fs))
    }
}

fn str_equals(a: &str, b: &str) -> (r: bool)
    ensures
        r == (a@ == b@),
{
    let x = to_chars(a);
    let y = to_chars(b);
    proof {
        assert(x@.subrange(0, x@.len() as int) =~= x@);
    }
    equals_at(&x, 0, x.len(), &y)
}

fn feature_dep_of(f: &str) -> (r: Option<&'static str>)
    ensures
        r is None <==> feature_dep(f@) is None,
        r matches Some(d) ==> Some(d@) == feature_dep(f@),
{
    if str_equals(f, "gpu") {
        Some("# GPU features already included in amari")
    } else if str_equals(f, "serde") {
        Some("serde = { version = \"1.0\", features = [\"derive\"] }")
    } else if str_equals(f, "async") {
        Some("tokio = { version = \"1.0\", features = [\"full\"] }")
    } else if str_equals(f, "plotting") {
        Some("plotters = \"0.3\"")
    } else if str_equals(f, "wasm") {
        Some("wasm-bindgen = \"0.2\"\njs-sys = \"0.3\"\nweb-sys = \"0.3\"")
    } else {
        None
    }
}

/// Extra `Cargo.toml` dependencies for the requested project features, one
/// block per known feature joined by newlines.
pub fn generate_feature_deps(features: &[&str]) -> (deps: String)
    ensures
        deps@ == feature_deps(features@.map_values(|f: &str| f@)),
{
    let ghost fs = features@.map_values(|f: &str| f@);
    let mut out = String::new();
    let mut count: usize = 0;
    let mut k: usize = 0;
    while k < features.len()
        invariant
            fs == features@.map_values(|f: &str| f@),
            k <= features@.len(),
            count <= k,
            count == feature_dep_lines(fs.subrange(0, k as int)).len(),
            count > 0 ==> out@ == join_lines(feature_dep_lines(fs.subrange(0, k as int))),
        decreases features@.len() - k,
    {
        let ghost prev = feature_dep_lines(fs.subrange(0, k as int));
        assert(fs.subrange(0, k + 1).drop_last() =~= fs.subrange(0, k as int));
        assert(fs.subrange(0, k + 1).last() == features@[k as int]@);
        match feature_dep_of(features[k]) {
            Some(d) => {
                let ghost now = prev + seq![d@];
                assert(now.drop_last() =~= prev);
                if count == 0 {
                    out = String::from_str(d);
                } else {
                    out.append("\n");
                    out.append(d);
                }
                count = count + 1;
            },
            None => {
                assert(prev + Seq::<Seq<char>>::empty() =~= prev);
            },
        }
        k = k + 1;
    }
    assert(fs.subrange(0, k as int) =~= fs);
    if count == 0 {
        String::from_str("# Add additional dependencies as needed")
    } else {
        out
    }
}

} // verus!
