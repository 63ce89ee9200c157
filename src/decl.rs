use vstd::prelude::*;

verus! {

/// One top-level declaration of a source file.
///
/// A module keeps its name, the text of its bodiless declaration (`mod a;`,
/// with its attributes and visibility) and, when it is written inline, its
/// body. Every other declaration is carried as its emitted text.
#[derive(Debug, PartialEq, Eq)]
pub enum Decl {
    Namespace { name: String, decl: String, body: Option<Vec<Decl>> },
    Other { text: String },
}

/// Is `d` a module written inline?
pub open spec fn is_inline(d: Decl) -> bool {
    d matches Decl::Namespace { body: Some(_), .. }
}

/// The text that stands for `d` when it is emitted in a folded tree.
pub open spec fn decl_text(d: Decl) -> Seq<char> {
    match d {
        Decl::Namespace { decl, .. } => decl@,
        Decl::Other { text } => text@,
    }
}

/// Appends a token to emitted text: one space separates two non-empty parts.
pub open spec fn join_word(acc: Seq<char>, w: Seq<char>) -> Seq<char> {
    if acc.len() == 0 {
        w
    } else if w.len() == 0 {
        acc
    } else {
        acc.push(' ') + w
    }
}

/// The source text of a sequence of declarations, in order.
pub open spec fn emit_seq(s: Seq<Decl>) -> Seq<char>
    decreases s.len(),
{
    if s.len() == 0 {
        Seq::empty()
    } else {
        join_word(emit_seq(s.drop_last()), decl_text(s.last()))
    }
}

fn append_word(acc: &mut String, w: &String)
    ensures
        final(acc)@ == join_word(old(acc)@, w@),
{
    if acc.as_str().is_empty() {
        acc.append(w.as_str());
    } else if !w.as_str().is_empty() {
        acc.append(" ");
        acc.append(w.as_str());
        proof {
            reveal_strlit(" ");
        }
        assert(final(acc)@ =~= old(acc)@.push(' ') + w@);
    }
}

/// Emits the declarations of `tree` as source text, in order.
pub fn emit(tree: &Vec<Decl>) -> (r: String)
    ensures
        r@ == emit_seq(tree@),
{
    let mut acc = String::new();
    let mut i: usize = 0;
    while i < tree.len()
        invariant
            i <= tree.len(),
            acc@ == emit_seq(tree@.take(i as int)),
        decreases tree.len() - i,
    {
        let w = match &tree[i] {
            Decl::Namespace { decl, .. } => decl,
            Decl::Other { text } => text,
        };
        append_word(&mut acc, w);
        assert(tree@.take(i + 1).drop_last() =~= tree@.take(i as int));
        i = i + 1;
    }
    assert(tree@.take(i as int) =~= tree@);
    acc
}

} // verus!
