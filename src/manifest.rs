use vstd::prelude::*;

use crate::layout::texts;

verus! {

/// The manifest of the unit `name`.
pub open spec fn unit_manifest_text(name: Seq<char>) -> Seq<char> {
    "[package]\nname = \""@ + name
        + "\"\nversion = \"0.1.0\"\nauthors = [\"James Munns <james@onevariable.com>\"]\n"@
}

/// One line of the workspace's member list.
pub open spec fn member_line(name: Seq<char>) -> Seq<char> {
    "    \""@ + name + "\",\n"@
}

/// The member list of the workspace, one line per unit, in order.
pub open spec fn member_lines(names: Seq<Seq<char>>) -> Seq<char>
    decreases names.len(),
{
    if names.len() == 0 {
        Seq::empty()
    } else {
        member_lines(names.drop_last()) + member_line(names.last())
    }
}

/// The workspace manifest that lists `names` as its members.
pub open spec fn workspace_manifest_text(names: Seq<Seq<char>>) -> Seq<char> {
    "[workspace]\nmembers = [\n"@ + member_lines(names) + "]\n"@
}

/// Writes the manifest of the unit `name`.
pub fn unit_manifest(name: &String) -> (r: String)
    ensures
        r@ == unit_manifest_text(name@),
{
    let mut r = "[package]\nname = \"".to_owned();
    r.append(name.as_str());
    r.append("\"\nversion = \"0.1.0\"\nauthors = [\"James Munns <james@onevariable.com>\"]\n");
    r
}

/// Writes the workspace manifest that lists `names`, in order.
pub fn workspace_manifest(names: &Vec<String>) -> (r: String)
    ensures
        r@ == workspace_manifest_text(texts(names@)),
{
    let ghost ns = texts(names@);
    let mut r = "[workspace]\nmembers = [\n".to_owned();
    let ghost head = r@;
    let mut i: usize = 0;
    while i < names.len()
        invariant
            i <= names.len(),
            ns == texts(names@),
            r@ == head + member_lines(ns.take(i as int)),
        decreases names.len() - i,
    {
        r.append("    \"");
        r.append(names[i].as_str());
        r.append("\",\n");
        assert(ns.take(i + 1).drop_last() =~= ns.take(i as int));
        assert(ns.take(i + 1).last() == names@[i as int]@);
        i = i + 1;
    }
    r.append("]\n");
    assert(ns.take(i as int) =~= ns);
    r
}

} // verus!
