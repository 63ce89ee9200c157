use vstd::prelude::*;

use crate::decl::{emit, emit_seq, Decl};
use crate::layout::{
    copy_path, fold_steps, fold_unit, inline_names, lemma_steps_push, steps_of, strip_all, texts,
    Action, Step,
};
use crate::manifest::{unit_manifest, unit_manifest_text, workspace_manifest, workspace_manifest_text};

verus! {

/// Why a tree cannot be laid out.
#[derive(Debug, PartialEq, Eq)]
pub enum LayoutError {
    /// Two inline modules of one scope share a name, or a top-level inline
    /// module takes the name of the root unit: one would overwrite the other.
    NameClash,
}

/// The name of the unit that holds what is left of the root.
pub open spec fn root_unit() -> Seq<char> {
    "base"@
}

/// The manifest file name of a unit and of the workspace.
pub open spec fn manifest_name() -> Seq<char> {
    "Cargo.toml"@
}

/// No two inline modules of one scope of `s` share a name, and, at the root
/// (`top`), none is named like the root unit.
pub open spec fn clash_free(s: Seq<Decl>, top: bool) -> bool
    decreases s,
{
    if s.len() == 0 {
        true
    } else {
        clash_free(s.drop_last(), top) && node_clash_free(s.last(), inline_names(s.drop_last()), top)
    }
}

/// `d` is clash free after the inline modules `seen` of its scope.
pub open spec fn node_clash_free(d: Decl, seen: Seq<Seq<char>>, top: bool) -> bool
    decreases d,
{
    match d {
        Decl::Namespace { name, body: Some(b), .. } => {
            &&& !seen.contains(name@)
            &&& !(top && name@ == root_unit())
            &&& clash_free(b@, false)
        },
        _ => true,
    }
}

/// The units of the workspace, in the order they are found.
pub open spec fn units_of(tree: Seq<Decl>) -> Seq<Seq<char>> {
    inline_names(tree).push(root_unit())
}

/// One manifest per unit.
pub open spec fn manifest_steps(units: Seq<Seq<char>>) -> Seq<Step> {
    units.map_values(|u: Seq<char>| Step::Write(seq![u, manifest_name()], unit_manifest_text(u)))
}

/// The directory of the root unit's sources.
pub open spec fn root_src() -> Seq<Seq<char>> {
    seq![root_unit(), "src"@]
}

/// Every step of laying out `tree` under the output root, in order: the
/// root, the fold of the whole tree, the root unit with what is left of the
/// tree, one manifest per unit and the workspace manifest.
pub open spec fn layout_steps(tree: Seq<Decl>) -> Seq<Step> {
    seq![Step::MakeDir(Seq::empty())] + fold_steps(tree, Seq::empty(), true) + seq![
        Step::MakeDir(root_src()),
        Step::Write(root_src().push("lib.rs"@), emit_seq(strip_all(tree))),
    ] + manifest_steps(units_of(tree)) + seq![
        Step::Write(seq![manifest_name()], workspace_manifest_text(units_of(tree))),
    ]
}

fn contains_name(seen: &Vec<String>, name: &String) -> (r: bool)
    ensures
        r == texts(seen@).contains(name@),
{
    let mut i: usize = 0;
    while i < seen.len()
        invariant
            i <= seen.len(),
            forall|j: int| 0 <= j < i ==> seen@[j]@ != name@,
        decreases seen.len() - i,
    {
        if seen[i] == *name {
            assert(texts(seen@)[i as int] == name@);
            return true;
        }
        i = i + 1;
    }
    assert(!texts(seen@).contains(name@)) by {
        assert forall|j: int| 0 <= j < texts(seen@).len() implies texts(seen@)[j] != name@ by {
            assert(texts(seen@)[j] == seen@[j]@);
        }
    }
    false
}

/// Is `tree` free of name clashes? At the root (`top`), a module named like
/// the root unit clashes too.
pub fn names_clash_free(tree: &Vec<Decl>, top: bool) -> (ok: bool)
    ensures
        ok == clash_free(tree@, top),
    decreases tree@,
{
    let mut ok = true;
    let mut seen: Vec<String> = Vec::new();
    let mut i: usize = 0;
    while i < tree.len()
        invariant
            i <= tree.len(),
            ok == clash_free(tree@.take(i as int), top),
            texts(seen@) == inline_names(tree@.take(i as int)),
        decreases tree.len() - i,
    {
        let ghost s = tree@.take(i + 1);
        assert(s.drop_last() =~= tree@.take(i as int));
        assert(s.last() == tree@[i as int]);
        proof {
            vstd::seq::axiom_seq_index_decreases(tree@, i as int);
        }
        let ghost seen0 = texts(seen@);
        match &tree[i] {
            Decl::Namespace { name, body: Some(b), .. } => {
                if ok {
                    let root = "base".to_owned();
                    let fresh = !contains_name(&seen, name);
                    let not_root = !(top && *name == root);
                    let inner = names_clash_free(b, false);
                    ok = fresh && not_root && inner;
                }
                let ghost before = seen@;
                seen.push(name.clone());
                assert(texts(seen@) =~= texts(before).push(name@));
            },
            _ => {},
        }
        assert(ok == (clash_free(tree@.take(i as int), top) && node_clash_free(
            tree@[i as int],
            seen0,
            top,
        )));
        i = i + 1;
    }
    assert(tree@.take(i as int) =~= tree@);
    ok
}

fn push_write(actions: &mut Vec<Action>, path: Vec<String>, contents: String)
    ensures
        steps_of(final(actions)@) == steps_of(old(actions)@).push(
            Step::Write(texts(path@), contents@),
        ),
{
    let ghost a = actions@;
    actions.push(Action::WriteFile { path, contents });
    proof {
        lemma_steps_push(a, actions@.last());
    }
}

/// Lays out `tree`, the declarations of a whole source file: every
/// top-level inline module becomes a unit, deeper ones become directories
/// inside it, and what is left becomes the root unit. The actions are to be
/// carried out in order under the output root.
pub fn plan_layout(tree: Vec<Decl>) -> (r: Result<Vec<Action>, LayoutError>)
    ensures
        match r {
            Ok(a) => clash_free(tree@, true) && steps_of(a@) == layout_steps(tree@),
            Err(_) => !clash_free(tree@, true),
        },
{
    if !names_clash_free(&tree, true) {
        return Err(LayoutError::NameClash);
    }
    let ghost t = tree@;
    let mut actions: Vec<Action> = Vec::new();
    let mut units: Vec<String> = Vec::new();
    let root: Vec<String> = Vec::new();
    let out_root: Vec<String> = Vec::new();
    assert(texts(out_root@) =~= Seq::empty());
    actions.push(Action::CreateDir { path: out_root });
    proof {
        lemma_steps_push(Seq::empty(), actions@.last());
        assert(actions@ =~= Seq::<Action>::empty().push(actions@.last()));
        assert(steps_of(Seq::<Action>::empty()) =~= Seq::empty());
    }
    assert(steps_of(actions@) =~= seq![Step::MakeDir(Seq::empty())]);
    assert(texts(root@) =~= Seq::empty());
    assert(texts(units@) =~= Seq::empty());
    let rest = fold_unit(tree, &root, true, &mut actions, &mut units);
    // the root unit holds what is left of the tree
    let ghost a1 = actions@;
    assert(steps_of(a1) == seq![Step::MakeDir(Seq::empty())] + fold_steps(t, Seq::empty(), true));
    let mut src: Vec<String> = Vec::new();
    src.push("base".to_owned());
    src.push("src".to_owned());
    let mut lib = copy_path(&src);
    assert(texts(src@) =~= root_src());
    actions.push(Action::CreateDir { path: src });
    proof {
        lemma_steps_push(a1, actions@.last());
    }
    lib.push("lib.rs".to_owned());
    assert(texts(lib@) =~= root_src().push("lib.rs"@));
    let text = emit(&rest);
    push_write(&mut actions, lib, text);
    units.push("base".to_owned());
    let ghost us = texts(units@);
    assert(texts(units@) =~= inline_names(t).push("base"@));
    assert(steps_of(actions@) =~= seq![Step::MakeDir(Seq::empty())] + fold_steps(t, Seq::empty(), true) + seq![
        Step::MakeDir(root_src()),
        Step::Write(root_src().push("lib.rs"@), emit_seq(strip_all(t))),
    ]);
    assert(us =~= units_of(t));
    // one manifest per unit, then the workspace manifest
    let ghost a2 = steps_of(actions@);
    let mut i: usize = 0;
    while i < units.len()
        invariant
            i <= units.len(),
            us == texts(units@),
            steps_of(actions@) == a2 + manifest_steps(us.take(i as int)),
        decreases units.len() - i,
    {
        let mut path: Vec<String> = Vec::new();
        path.push(units[i].clone());
        path.push("Cargo.toml".to_owned());
        assert(texts(path@) =~= seq![us[i as int], manifest_name()]);
        push_write(&mut actions, path, unit_manifest(&units[i]));
        assert(manifest_steps(us.take(i + 1)) =~= manifest_steps(us.take(i as int)).push(
            Step::Write(seq![us[i as int], manifest_name()], unit_manifest_text(us[i as int])),
        ));
        i = i + 1;
    }
    assert(us.take(i as int) =~= us);
    let mut top: Vec<String> = Vec::new();
    top.push("Cargo.toml".to_owned());
    assert(texts(top@) =~= seq![manifest_name()]);
    push_write(&mut actions, top, workspace_manifest(&units));
    assert(steps_of(actions@) =~= layout_steps(t));
    Ok(actions)
}

} // verus!
