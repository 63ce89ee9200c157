use vstd::prelude::*;

use crate::decl::{decl_text, emit_seq, is_inline, Decl};
use crate::layout::{
    child_dir, entry_name, fold_steps, inline_names, node_steps, strip, strip_all, unit_of, Step,
};
use crate::plan::{clash_free, layout_steps, node_clash_free, root_unit, units_of};

verus! {

/// The number of declarations of `s` that are not modules.
pub open spec fn count_others(s: Seq<Decl>) -> nat
    decreases s.len(),
{
    if s.len() == 0 {
        0
    } else {
        count_others(s.drop_last()) + if s.last() is Other {
            1nat
        } else {
            0nat
        }
    }
}

/// Do `a` and `b` hold the same text, module for module?
pub open spec fn same_decl(a: Decl, b: Decl) -> bool
    decreases a,
{
    match a {
        Decl::Namespace { name: n1, decl: d1, body: b1 } => match b {
            Decl::Namespace { name: n2, decl: d2, body: b2 } => {
                &&& n1@ == n2@
                &&& d1@ == d2@
                &&& match b1 {
                    Some(x) => b2 is Some && same_seq(x@, b2.unwrap()@),
                    None => b2 is None,
                }
            },
            Decl::Other { .. } => false,
        },
        Decl::Other { text: t1 } => match b {
            Decl::Other { text: t2 } => t1@ == t2@,
            Decl::Namespace { .. } => false,
        },
    }
}

/// Do `a` and `b` hold the same text, declaration for declaration?
pub open spec fn same_seq(a: Seq<Decl>, b: Seq<Decl>) -> bool
    decreases a,
{
    &&& a.len() == b.len()
    &&& a.len() > 0 ==> same_seq(a.drop_last(), b.drop_last()) && same_decl(a.last(), b.last())
}

proof fn lemma_same_node(a: Decl, b: Decl, dir: Seq<Seq<char>>, top: bool, seen: Seq<Seq<char>>)
    requires
        same_decl(a, b),
    ensures
        node_steps(a, dir, top) == node_steps(b, dir, top),
        decl_text(strip(a)) == decl_text(strip(b)),
        unit_of(a, top) == unit_of(b, top),
        is_inline(a) == is_inline(b),
        node_clash_free(a, seen, top) == node_clash_free(b, seen, top),
    decreases a,
{
    if let Decl::Namespace { name, body: Some(x), .. } = a {
        let y = b->body.unwrap();
        lemma_same_seq(x@, y@, child_dir(dir, name@, top), false);
    }
}

proof fn lemma_same_seq(a: Seq<Decl>, b: Seq<Decl>, dir: Seq<Seq<char>>, top: bool)
    requires
        same_seq(a, b),
    ensures
        fold_steps(a, dir, top) == fold_steps(b, dir, top),
        emit_seq(strip_all(a)) == emit_seq(strip_all(b)),
        inline_names(a) == inline_names(b),
        clash_free(a, top) == clash_free(b, top),
        clash_free(a, false) == clash_free(b, false),
    decreases a,
{
    if a.len() > 0 {
        let (pa, pb) = (a.drop_last(), b.drop_last());
        lemma_same_seq(pa, pb, dir, top);
        lemma_same_node(a.last(), b.last(), dir, top, inline_names(pa));
        lemma_same_node(a.last(), b.last(), dir, false, inline_names(pa));
        assert(strip_all(a).drop_last() =~= strip_all(pa));
        assert(strip_all(b).drop_last() =~= strip_all(pb));
    }
}

/// The layout depends on the text of the tree alone: two runs on trees
/// with the same text carry out the same actions, so they build
/// byte-identical outputs.
pub proof fn layout_depends_on_text_only(a: Seq<Decl>, b: Seq<Decl>)
    requires
        same_seq(a, b),
    ensures
        layout_steps(a) == layout_steps(b),
        clash_free(a, true) == clash_free(b, true),
{
    lemma_same_seq(a, b, Seq::empty(), true);
}

/// Folding keeps every declaration that is not a module, in its place and
/// unchanged, and adds none: the root unit holds as many of them as the
/// input.
pub proof fn others_are_kept(tree: Seq<Decl>)
    ensures
        strip_all(tree).len() == tree.len(),
        forall|i: int| 0 <= i < tree.len() && tree[i] is Other ==> strip_all(tree)[i] == tree[i],
        count_others(strip_all(tree)) == count_others(tree),
    decreases tree.len(),
{
    if tree.len() > 0 {
        others_are_kept(tree.drop_last());
        assert(strip_all(tree).drop_last() =~= strip_all(tree.drop_last()));
    }
}

proof fn lemma_node_in_fold(s: Seq<Decl>, dir: Seq<Seq<char>>, top: bool, i: int, x: Step)
    requires
        0 <= i < s.len(),
        node_steps(s[i], dir, top).contains(x),
    ensures
        fold_steps(s, dir, top).contains(x),
    decreases s.len(),
{
    let fd = fold_steps(s.drop_last(), dir, top);
    let nd = node_steps(s.last(), dir, top);
    assert(fold_steps(s, dir, top) == fd + nd);
    if i == s.len() - 1 {
        let m = choose|m: int| 0 <= m < nd.len() && nd[m] == x;
        assert((fd + nd)[fd.len() + m] == x);
    } else {
        assert(s.drop_last()[i] == s[i]);
        lemma_node_in_fold(s.drop_last(), dir, top, i, x);
        let w = choose|w: int| 0 <= w < fd.len() && fd[w] == x;
        assert((fd + nd)[w] == x);
    }
}

proof fn lemma_inner_in_node(d: Decl, dir: Seq<Seq<char>>, top: bool, x: Step)
    requires
        is_inline(d),
        fold_steps(d->body.unwrap()@, child_dir(dir, d->name@, top), false).contains(x),
    ensures
        node_steps(d, dir, top).contains(x),
{
    let cd = child_dir(dir, d->name@, top);
    let inner = fold_steps(d->body.unwrap()@, cd, false);
    let w = choose|w: int| 0 <= w < inner.len() && inner[w] == x;
    let whole = seq![Step::MakeDir(cd)] + inner + seq![
        Step::Write(cd.push(entry_name(top)), emit_seq(strip_all(d->body.unwrap()@))),
    ];
    assert(node_steps(d, dir, top) == whole);
    assert(whole[w + 1] == x);
}

/// A body without inline modules is left as it is by folding.
pub proof fn flat_body_is_unchanged(s: Seq<Decl>)
    requires
        forall|m: int| 0 <= m < s.len() ==> !is_inline(#[trigger] s[m]),
    ensures
        strip_all(s) == s,
{
    assert(strip_all(s) =~= s);
}

/// For modules `a::b::c`, all three inline and `a` at the top level, the
/// layout writes the folded body of `c` to `a/src/b/c/mod.rs` (the body
/// itself where it holds no inline module).
pub proof fn nested_modules_map_to_directories(tree: Seq<Decl>, i: int, j: int, k: int)
    requires
        0 <= i < tree.len(),
        is_inline(tree[i]),
        0 <= j < tree[i]->body.unwrap()@.len(),
        is_inline(tree[i]->body.unwrap()@[j]),
        0 <= k < tree[i]->body.unwrap()@[j]->body.unwrap()@.len(),
        is_inline(tree[i]->body.unwrap()@[j]->body.unwrap()@[k]),
    ensures
        ({
            let a = tree[i];
            let b = a->body.unwrap()@[j];
            let c = b->body.unwrap()@[k];
            layout_steps(tree).contains(
                Step::Write(
                    seq![a->name@, "src"@, b->name@, c->name@, "mod.rs"@],
                    emit_seq(strip_all(c->body.unwrap()@)),
                ),
            )
        }),
{
    let a = tree[i];
    let b = a->body.unwrap()@[j];
    let c = b->body.unwrap()@[k];
    let da = child_dir(Seq::empty(), a->name@, true);
    let db = child_dir(da, b->name@, false);
    let dc = child_dir(db, c->name@, false);
    let x = Step::Write(dc.push(entry_name(false)), emit_seq(strip_all(c->body.unwrap()@)));
    assert(dc.push(entry_name(false)) =~= seq![a->name@, "src"@, b->name@, c->name@, "mod.rs"@]);
    let nc = node_steps(c, db, false);
    assert(nc[nc.len() - 1] == x);
    lemma_node_in_fold(b->body.unwrap()@, db, false, k, x);
    lemma_inner_in_node(b, da, false, x);
    lemma_node_in_fold(a->body.unwrap()@, da, false, j, x);
    lemma_inner_in_node(a, Seq::empty(), true, x);
    lemma_node_in_fold(tree, Seq::empty(), true, i, x);
    let fs = fold_steps(tree, Seq::empty(), true);
    let w = choose|w: int| 0 <= w < fs.len() && fs[w] == x;
    assert(layout_steps(tree)[w + 1] == x);
}

/// A module without an inline body is left as it is: it is emitted as
/// before, adds no step and registers no unit.
pub proof fn external_module_is_untouched(d: Decl, dir: Seq<Seq<char>>, top: bool)
    requires
        d matches Decl::Namespace { body: None, .. },
    ensures
        strip(d) == d,
        decl_text(strip(d)) == decl_text(d),
        node_steps(d, dir, top) == Seq::<Step>::empty(),
        unit_of(d, top) == Seq::<Seq<char>>::empty(),
{
}

proof fn lemma_inline_names(s: Seq<Decl>, n: Seq<char>)
    ensures
        inline_names(s).contains(n) <==> exists|i: int|
            0 <= i < s.len() && is_inline(#[trigger] s[i]) && s[i]->name@ == n,
    decreases s.len(),
{
    if s.len() > 0 {
        let p = s.drop_last();
        lemma_inline_names(p, n);
        if inline_names(s).contains(n) {
            if inline_names(p).contains(n) {
                let i = choose|i: int| 0 <= i < p.len() && is_inline(#[trigger] p[i]) && p[i]->name@ == n;
                assert(s[i] == p[i]);
            } else {
                let w = choose|w: int| 0 <= w < inline_names(s).len() && inline_names(s)[w] == n;
                assert(is_inline(s.last()));
                assert(s[s.len() - 1] == s.last());
            }
        }
        if exists|i: int| 0 <= i < s.len() && is_inline(#[trigger] s[i]) && s[i]->name@ == n {
            let i = choose|i: int| 0 <= i < s.len() && is_inline(#[trigger] s[i]) && s[i]->name@ == n;
            if i < s.len() - 1 {
                assert(p[i] == s[i]);
                let w = choose|w: int| 0 <= w < inline_names(p).len() && inline_names(p)[w] == n;
                if is_inline(s.last()) {
                    assert(inline_names(s)[w] == n);
                } else {
                    assert(inline_names(s)[w] == n);
                }
            } else {
                assert(inline_names(s).last() == n);
            }
        }
    }
}

proof fn lemma_inline_names_distinct(s: Seq<Decl>)
    requires
        clash_free(s, true),
    ensures
        inline_names(s).no_duplicates(),
        !inline_names(s).contains(root_unit()),
    decreases s.len(),
{
    if s.len() > 0 {
        let p = s.drop_last();
        lemma_inline_names_distinct(p);
        assert(node_clash_free(s.last(), inline_names(p), true));
        if is_inline(s.last()) {
            let n = s.last()->name@;
            assert(!inline_names(p).contains(n));
            let q = inline_names(s);
            assert(q == inline_names(p).push(n));
            assert forall|a: int, b: int| 0 <= a < b < q.len() implies q[a] != q[b] by {
                if b == q.len() - 1 {
                    assert(q[a] == inline_names(p)[a]);
                }
            }
            if q.contains(root_unit()) {
                let w = choose|w: int| 0 <= w < q.len() && q[w] == root_unit();
                if w < q.len() - 1 {
                    assert(inline_names(p)[w] == root_unit());
                }
            }
        }
    }
}

/// The units of the workspace are the top-level inline modules and the
/// root unit, each once, when the tree has no name clash.
pub proof fn units_are_complete(tree: Seq<Decl>, n: Seq<char>)
    requires
        clash_free(tree, true),
    ensures
        units_of(tree).no_duplicates(),
        units_of(tree).contains(n) <==> (n == root_unit() || exists|i: int|
            0 <= i < tree.len() && is_inline(#[trigger] tree[i]) && tree[i]->name@ == n),
{
    lemma_inline_names_distinct(tree);
    lemma_inline_names(tree, n);
    let q = units_of(tree);
    let p = inline_names(tree);
    assert(q == p.push(root_unit()));
    assert forall|a: int, b: int| 0 <= a < b < q.len() implies q[a] != q[b] by {
        if b == q.len() - 1 {
            assert(q[a] == p[a]);
        }
    }
    if q.contains(n) && n != root_unit() {
        let w = choose|w: int| 0 <= w < q.len() && q[w] == n;
        assert(p[w] == n);
    }
    if p.contains(n) {
        let w = choose|w: int| 0 <= w < p.len() && p[w] == n;
        assert(q[w] == n);
    }
    assert(q[q.len() - 1] == root_unit());
}

} // verus!
