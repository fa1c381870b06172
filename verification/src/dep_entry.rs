//! One entry of the dependency graph.
use crate::text::{cat5, lemma_pieces_append, lemma_pieces_single, opt_str, pieces, strs};
use vstd::prelude::*;
use vstd::string::*;

verus! {

/// A dependency of the app under build.
#[derive(Debug, Clone, PartialEq, Eq)]
pub struct DepEntry {
    /// `<type>:<group>:<name>`.
    pub id: String,
    pub group: String,
    pub name: String,
    pub version: Option<String>,
    /// Declared by the user, not pulled in by another dependency.
    pub direct: bool,
    pub scope: Option<String>,
    /// `library` or `file`.
    pub type_: String,
    /// The ids of the entries that depend on this one.
    pub parents: Vec<String>,
    /// Where the package comes from, as far as the manifest says.
    pub url: Option<String>,
}

/// The text of an entry.
pub struct Dep {
    pub id: Seq<char>,
    pub group: Seq<char>,
    pub name: Seq<char>,
    pub version: Option<Seq<char>>,
    pub direct: bool,
    pub scope: Option<Seq<char>>,
    pub type_: Seq<char>,
    pub parents: Seq<Seq<char>>,
    pub url: Option<Seq<char>>,
}

impl View for DepEntry {
    type V = Dep;

    open spec fn view(&self) -> Dep {
        Dep {
            id: self.id@,
            group: self.group@,
            name: self.name@,
            version: opt_str(self.version),
            direct: self.direct,
            scope: opt_str(self.scope),
            type_: self.type_@,
            parents: strs(self.parents@),
            url: opt_str(self.url),
        }
    }
}

pub open spec fn deps(v: Seq<DepEntry>) -> Seq<Dep> {
    v.map_values(|e: DepEntry| e@)
}

pub open spec fn dep_ids(s: Seq<Dep>) -> Seq<Seq<char>> {
    s.map_values(|e: Dep| e.id)
}

/// The id of an entry: its type, group and name with single colons between.
pub open spec fn dep_id(type_: Seq<char>, group: Seq<char>, name: Seq<char>) -> Seq<char> {
    type_ + ":"@ + group + ":"@ + name
}

/// The id of an entry of the given type, group and name.
pub fn make_dep_id(type_: &str, group: &str, name: &str) -> (r: String)
    ensures
        r@ == dep_id(type_@, group@, name@),
{
    cat5(type_, ":", group, ":", name)
}

/// A copy of an optional string.
pub fn copy_opt(o: &Option<String>) -> (r: Option<String>)
    ensures
        opt_str(r) == opt_str(*o),
        r is Some == o is Some,
{
    match o {
        Some(s) => Some(s.clone()),
        None => None,
    }
}

/// A copy of a list of strings.
pub fn copy_strings(v: &Vec<String>) -> (r: Vec<String>)
    ensures
        strs(r@) == strs(v@),
{
    let mut r: Vec<String> = Vec::new();
    let mut i: usize = 0;
    while i < v.len()
        invariant
            i <= v@.len(),
            strs(r@) == strs(v@).take(i as int),
        decreases v@.len() - i,
    {
        let c = v[i].clone();
        proof {
            assert(strs(r@.push(c)) =~= strs(r@).push(c@));
            assert(strs(v@).take(i + 1) =~= strs(v@).take(i as int).push(v@[i as int]@));
        }
        r.push(c);
        i += 1;
    }
    proof {
        assert(strs(v@).take(i as int) =~= strs(v@));
    }
    r
}

/// A copy of an entry.
pub fn copy_entry(e: &DepEntry) -> (r: DepEntry)
    ensures
        r@ == e@,
{
    DepEntry {
        id: e.id.clone(),
        group: e.group.clone(),
        name: e.name.clone(),
        version: copy_opt(&e.version),
        direct: e.direct,
        scope: copy_opt(&e.scope),
        type_: e.type_.clone(),
        parents: copy_strings(&e.parents),
        url: copy_opt(&e.url),
    }
}

/// The id of a library without a group is `library::` and its name, that of a file `file::`
/// and its name; ids of one type and group tell names apart.
pub proof fn law_ids_of_libraries(name: Seq<char>)
    ensures
        dep_id("library"@, Seq::empty(), name) == "library::"@ + name,
        dep_id("file"@, Seq::empty(), name) == "file::"@ + name,
{
    reveal_strlit("library");
    reveal_strlit("file");
    reveal_strlit(":");
    reveal_strlit("library::");
    reveal_strlit("file::");
    let e = Seq::<char>::empty();
    assert("library"@ + ":"@ + e + ":"@ + name =~= "library::"@ + name);
    assert("file"@ + ":"@ + e + ":"@ + name =~= "file::"@ + name);
}

/// Ids are the type, the group and the name between colons.
pub proof fn law_ids_have_three_parts(type_: Seq<char>, group: Seq<char>, name: Seq<char>)
    requires
        !type_.contains(':'),
        !group.contains(':'),
        !name.contains(':'),
    ensures
        pieces(dep_id(type_, group, name), seq![':']) == seq![type_, group, name],
{
    reveal_strlit(":");
    assert(":"@ =~= seq![':']);
    lemma_pieces_single(type_, ':');
    lemma_pieces_append(type_, ':', group);
    lemma_pieces_append(type_ + seq![':'] + group, ':', name);
    assert(seq![type_].push(group).push(name) =~= seq![type_, group, name]);
}

} // verus!
