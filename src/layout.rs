use vstd::prelude::*;

use crate::decl::{emit, emit_seq, is_inline, Decl};

verus! {

/// What an action does to the output tree, with paths as segments below the
/// output root.
pub enum Step {
    MakeDir(Seq<Seq<char>>),
    Write(Seq<Seq<char>>, Seq<char>),
}

/// One filesystem action of a layout, with its path as segments below the
/// output root.
#[derive(Debug, PartialEq, Eq)]
pub enum Action {
    /// Creates the directory and its missing parents; one that exists is fine.
    CreateDir { path: Vec<String> },
    /// Creates or truncates the file and writes `contents` to it.
    WriteFile { path: Vec<String>, contents: String },
}

/// The characters of each string.
pub open spec fn texts(p: Seq<String>) -> Seq<Seq<char>> {
    p.map_values(|s: String| s@)
}

impl View for Action {
    type V = Step;

    open spec fn view(&self) -> Step {
        match self {
            Action::CreateDir { path } => Step::MakeDir(texts(path@)),
            Action::WriteFile { path, contents } => Step::Write(texts(path@), contents@),
        }
    }
}

/// What a list of actions does, in order.
pub open spec fn steps_of(a: Seq<Action>) -> Seq<Step> {
    a.map_values(|x: Action| x@)
}

/// Where the body of module `name` goes when the module is declared in the
/// unit at `dir`: a top-level module becomes a crate with a `src` directory,
/// a nested one a directory of its own.
pub open spec fn child_dir(dir: Seq<Seq<char>>, name: Seq<char>, top: bool) -> Seq<Seq<char>> {
    if top {
        dir.push(name).push("src"@)
    } else {
        dir.push(name)
    }
}

/// The file that holds a module's body: a crate root or a module file.
pub open spec fn entry_name(top: bool) -> Seq<char> {
    if top {
        "lib.rs"@
    } else {
        "mod.rs"@
    }
}

/// `d` with the body of an inline module taken out.
pub open spec fn strip(d: Decl) -> Decl {
    match d {
        Decl::Namespace { name, decl, body: Some(_) } => Decl::Namespace { name, decl, body: None },
        _ => d,
    }
}

pub open spec fn strip_all(s: Seq<Decl>) -> Seq<Decl> {
    s.map_values(|d: Decl| strip(d))
}

/// The names of the inline modules of `s`, in order.
pub open spec fn inline_names(s: Seq<Decl>) -> Seq<Seq<char>>
    decreases s.len(),
{
    if s.len() == 0 {
        Seq::empty()
    } else if is_inline(s.last()) {
        inline_names(s.drop_last()).push(s.last()->name@)
    } else {
        inline_names(s.drop_last())
    }
}

/// The units that folding `s` registers: its inline modules when `s` is the
/// content of the root, none below it.
pub open spec fn registered(s: Seq<Decl>, top: bool) -> Seq<Seq<char>> {
    if top {
        inline_names(s)
    } else {
        Seq::empty()
    }
}

/// The unit that folding `d` registers.
pub open spec fn unit_of(d: Decl, top: bool) -> Seq<Seq<char>> {
    if top && is_inline(d) {
        seq![d->name@]
    } else {
        Seq::empty()
    }
}

/// The steps of folding `s` in the unit at `dir`, in order.
pub open spec fn fold_steps(s: Seq<Decl>, dir: Seq<Seq<char>>, top: bool) -> Seq<Step>
    decreases s,
{
    if s.len() == 0 {
        Seq::empty()
    } else {
        fold_steps(s.drop_last(), dir, top) + node_steps(s.last(), dir, top)
    }
}

/// The steps of folding one declaration: for an inline module, make its
/// directory, fold its body there, then write the folded body.
pub open spec fn node_steps(d: Decl, dir: Seq<Seq<char>>, top: bool) -> Seq<Step>
    decreases d,
{
    match d {
        Decl::Namespace { name, body: Some(b), .. } => {
            let cd = child_dir(dir, name@, top);
            seq![Step::MakeDir(cd)] + fold_steps(b@, cd, false) + seq![
                Step::Write(cd.push(entry_name(top)), emit_seq(strip_all(b@))),
            ]
        },
        _ => Seq::empty(),
    }
}

pub(crate) proof fn lemma_steps_push(a: Seq<Action>, x: Action)
    ensures
        steps_of(a.push(x)) == steps_of(a).push(x@),
{
    assert(steps_of(a.push(x)) =~= steps_of(a).push(x@));
}

pub(crate) fn copy_path(p: &Vec<String>) -> (r: Vec<String>)
    ensures
        r@ == p@,
{
    let mut r: Vec<String> = Vec::new();
    let mut i: usize = 0;
    while i < p.len()
        invariant
            i <= p.len(),
            r@ == p@.take(i as int),
        decreases p.len() - i,
    {
        r.push(p[i].clone());
        assert(r@ =~= p@.take(i + 1));
        i = i + 1;
    }
    assert(p@.take(i as int) =~= p@);
    r
}

pub fn resolve_dir(dir: &Vec<String>, name: &String, top: bool) -> (r: Vec<String>)
    ensures
        texts(r@) == child_dir(texts(dir@), name@, top),
{
    let mut r = copy_path(dir);
    r.push(name.clone());
    if top {
        r.push("src".to_owned());
    }
    assert(texts(r@) =~= child_dir(texts(dir@), name@, top));
    r
}

pub fn entry_file(top: bool) -> (r: String)
    ensures
        r@ == entry_name(top),
{
    if top {
        "lib.rs".to_owned()
    } else {
        "mod.rs".to_owned()
    }
}

/// Folds one declaration of the unit at `dir`: an inline module has its body
/// folded and written out, and is replaced by its bodiless declaration.
fn fold_node(
    d: Decl,
    dir: &Vec<String>,
    top: bool,
    actions: &mut Vec<Action>,
    units: &mut Vec<String>,
) -> (r: Decl)
    ensures
        r == strip(d),
        steps_of(final(actions)@) == steps_of(old(actions)@) + node_steps(d, texts(dir@), top),
        texts(final(units)@) == texts(old(units)@) + unit_of(d, top),
    decreases d,
{
    let ghost dd = d;
    let ghost a1 = steps_of(actions@);
    let ghost u1 = texts(units@);
    match d {
        Decl::Namespace { name, decl, body: Some(body) } => {
            let cd = resolve_dir(dir, &name, top);
            let ghost a_dir = actions@;
            actions.push(Action::CreateDir { path: copy_path(&cd) });
            proof {
                lemma_steps_push(a_dir, actions@.last());
            }
            let folded = fold_unit(body, &cd, false, actions, units);
            let text = emit(&folded);
            let mut file = copy_path(&cd);
            file.push(entry_file(top));
            assert(texts(file@) =~= texts(cd@).push(entry_name(top)));
            let ghost a2 = actions@;
            actions.push(Action::WriteFile { path: file, contents: text });
            proof {
                lemma_steps_push(a2, actions@.last());
            }
            assert(steps_of(actions@) =~= a1 + node_steps(dd, texts(dir@), top));
            if top {
                let ghost us = units@;
                units.push(name.clone());
                assert(texts(units@) =~= texts(us).push(name@));
            }
            assert(texts(units@) =~= u1 + unit_of(dd, top));
            Decl::Namespace { name, decl, body: None }
        },
        other => {
            assert(node_steps(dd, texts(dir@), top) =~= Seq::empty());
            assert(steps_of(actions@) =~= a1 + node_steps(dd, texts(dir@), top));
            assert(texts(units@) =~= u1 + unit_of(dd, top));
            other
        },
    }
}

/// Folds `tree`, the content of the unit at `dir`: every inline module is
/// replaced by its bodiless declaration, and the actions that write its
/// folded body out are appended to `actions`. At the root (`top`), the
/// names of the inline modules are appended to `units`.
pub fn fold_unit(
    tree: Vec<Decl>,
    dir: &Vec<String>,
    top: bool,
    actions: &mut Vec<Action>,
    units: &mut Vec<String>,
) -> (r: Vec<Decl>)
    ensures
        r@ == strip_all(tree@),
        steps_of(final(actions)@) == steps_of(old(actions)@) + fold_steps(
            tree@,
            texts(dir@),
            top,
        ),
        texts(final(units)@) == texts(old(units)@) + registered(tree@, top),
    decreases tree@,
{
    let ghost orig = tree@;
    let ghost dv = texts(dir@);
    let ghost a0 = steps_of(actions@);
    let ghost u0 = texts(units@);
    let mut rest = tree;
    let mut out: Vec<Decl> = Vec::new();
    while rest.len() > 0
        invariant
            out@.len() + rest@.len() == orig.len(),
            rest@ == orig.subrange(out@.len() as int, orig.len() as int),
            out@ == strip_all(orig.take(out@.len() as int)),
            steps_of(actions@) == a0 + fold_steps(orig.take(out@.len() as int), dv, top),
            texts(units@) == u0 + registered(orig.take(out@.len() as int), top),
            orig == tree@,
            dv == texts(dir@),
        decreases rest.len(),
    {
        let ghost k = out@.len() as int;
        let ghost a1 = steps_of(actions@);
        let ghost u1 = texts(units@);
        let d = rest.remove(0);
        assert(d == orig[k]);
        assert(orig.take(k + 1).drop_last() =~= orig.take(k));
        assert(orig.take(k + 1).last() == d);
        proof {
            vstd::seq::axiom_seq_index_decreases(orig, k);
        }
        let ghost dd = d;
        let folded = fold_node(d, dir, top, actions, units);
        out.push(folded);
        assert(registered(orig.take(k + 1), top) =~= registered(orig.take(k), top) + unit_of(dd, top));
        assert(out@ =~= strip_all(orig.take(k + 1)));
        assert(steps_of(actions@) =~= a0 + fold_steps(orig.take(k + 1), dv, top));
        assert(texts(units@) =~= u0 + registered(orig.take(k + 1), top));
    }
    assert(orig.take(orig.len() as int) =~= orig);
    out
}

} // verus!
