//! Reading `Package.resolved`, `Cartfile.resolved` and the output of
//! `otool -L`.
use crate::dep_entry::{Dep, DepEntry, dep_id, deps, law_ids_of_libraries, make_dep_id};
use crate::json::{JsonAt, JsonShape, json_at, look_up, text_at, text_of};
use crate::numeral::{dec_u64, decimal};
use crate::patterns::{
    CARTFILE_LINE, capture_cartfile, cartfile_fields, cartfile_quotes, is_quote, none_quote,
    none_white,
};
use crate::text::{
    cat2, cat3, is_white, law_trimming_takes_the_ends, line_seq, lines, opt_str, strs, to_chars,
    trim, trimmed, trimmed_end,
};
use vstd::prelude::*;
use vstd::string::*;

verus! {

/// A library entry as a manifest without a graph gives it: direct, no parents.
pub open spec fn flat_library(
    name: Seq<char>,
    version: Option<Seq<char>>,
    url: Option<Seq<char>>,
) -> Dep {
    Dep {
        id: dep_id("library"@, Seq::empty(), name),
        group: Seq::empty(),
        name,
        version,
        direct: true,
        scope: None,
        type_: "library"@,
        parents: Seq::empty(),
        url,
    }
}

/// The first of two that is there.
pub open spec fn either(a: Option<Seq<char>>, b: Option<Seq<char>>) -> Option<Seq<char>> {
    if a is Some {
        a
    } else {
        b
    }
}

/// What a pin of a `Package.resolved` says.
pub struct Pin {
    pub identity: Option<Seq<char>>,
    pub package: Option<Seq<char>>,
    pub version: Option<Seq<char>>,
    pub branch: Option<Seq<char>>,
    pub revision: Option<Seq<char>>,
    pub location: Option<Seq<char>>,
    pub repository_url: Option<Seq<char>>,
}

/// The entry of a pin: named by its identity or else its package, at its
/// version, branch or revision, whichever comes first. A pin without a name
/// has none.
pub open spec fn pin_dep(p: Pin) -> Option<Dep> {
    let name = either(p.identity, p.package);
    if name is Some && name->0.len() > 0 {
        Some(
            flat_library(
                name->0,
                either(either(p.version, p.branch), p.revision),
                either(p.location, p.repository_url),
            ),
        )
    } else {
        None
    }
}

/// A pin, as plain strings.
#[derive(Debug, PartialEq, Eq)]
pub struct PinFields {
    pub identity: Option<String>,
    pub package: Option<String>,
    pub version: Option<String>,
    pub branch: Option<String>,
    pub revision: Option<String>,
    pub location: Option<String>,
    pub repository_url: Option<String>,
}

impl View for PinFields {
    type V = Pin;

    open spec fn view(&self) -> Pin {
        Pin {
            identity: opt_str(self.identity),
            package: opt_str(self.package),
            version: opt_str(self.version),
            branch: opt_str(self.branch),
            revision: opt_str(self.revision),
            location: opt_str(self.location),
            repository_url: opt_str(self.repository_url),
        }
    }
}

fn or_else(a: Option<String>, b: Option<String>) -> (r: Option<String>)
    ensures
        opt_str(r) == either(opt_str(a), opt_str(b)),
{
    match a {
        Some(s) => Some(s),
        None => b,
    }
}

fn flat_entry(name: String, version: Option<String>, url: Option<String>) -> (r: DepEntry)
    ensures
        r@ == flat_library(name@, opt_str(version), opt_str(url)),
{
    let parents: Vec<String> = Vec::new();
    let r = DepEntry {
        id: make_dep_id("library", "", name.as_str()),
        group: String::new(),
        name,
        version,
        direct: true,
        scope: None,
        type_: "library".to_owned(),
        parents,
        url,
    };
    proof {
        reveal_strlit("");
        assert(""@ =~= Seq::<char>::empty());
        assert(strs(r.parents@) =~= Seq::empty());
    }
    r
}

/// The entry of a pin.
pub fn pin_entry(p: PinFields) -> (r: Option<DepEntry>)
    ensures
        r is Some <==> pin_dep(p@) is Some,
        r is Some ==> r->0@ == pin_dep(p@)->0,
{
    let name = or_else(p.identity, p.package);
    let version = or_else(or_else(p.version, p.branch), p.revision);
    let url = or_else(p.location, p.repository_url);
    match name {
        Some(n) => if n.as_str().is_empty() {
            None
        } else {
            Some(flat_entry(n, version, url))
        },
        None => None,
    }
}

/// Where the pins of a `Package.resolved` stand: at the top level, or under
/// `object` in the older form.
pub open spec fn pins_pointer(doc: Seq<char>) -> Seq<char> {
    if json_at(doc, "/pins"@) == JsonAt::Absent {
        "/object/pins"@
    } else {
        "/pins"@
    }
}

pub open spec fn pin_count(doc: Seq<char>) -> nat {
    match json_at(doc, pins_pointer(doc)) {
        JsonAt::List(n) => n,
        _ => 0,
    }
}

/// The string at `suffix` under the pin of index `i`.
pub open spec fn pin_text(doc: Seq<char>, i: nat, suffix: Seq<char>) -> Option<Seq<char>> {
    text_of(json_at(doc, pins_pointer(doc) + "/"@ + decimal(i) + suffix))
}

pub open spec fn pin_at(doc: Seq<char>, i: nat) -> Pin {
    Pin {
        identity: pin_text(doc, i, "/identity"@),
        package: pin_text(doc, i, "/package"@),
        version: pin_text(doc, i, "/state/version"@),
        branch: pin_text(doc, i, "/state/branch"@),
        revision: pin_text(doc, i, "/state/revision"@),
        location: pin_text(doc, i, "/location"@),
        repository_url: pin_text(doc, i, "/repositoryURL"@),
    }
}

/// The entries of the first `n` pins.
pub open spec fn package_entries_upto(doc: Seq<char>, n: nat) -> Seq<Dep>
    decreases n,
{
    if n == 0 {
        Seq::empty()
    } else {
        let r = package_entries_upto(doc, (n - 1) as nat);
        match pin_dep(pin_at(doc, (n - 1) as nat)) {
            Some(d) => r.push(d),
            None => r,
        }
    }
}

pub open spec fn package_entries(doc: Seq<char>) -> Seq<Dep> {
    package_entries_upto(doc, pin_count(doc))
}

fn read_pin_text(doc: &str, base: &str, suffix: &str) -> (r: Option<String>)
    ensures
        opt_str(r) == text_of(json_at(doc@, base@ + suffix@)),
{
    let p = cat2(base, suffix);
    text_at(doc, p.as_str())
}

/// The entries of the text of a `Package.resolved`.
pub fn parse_package_resolved(doc: &str) -> (r: Vec<DepEntry>)
    ensures
        deps(r@) == package_entries(doc@),
{
    let pins = match look_up(doc, "/pins") {
        JsonShape::Absent => "/object/pins",
        _ => "/pins",
    };
    let n: usize = match look_up(doc, pins) {
        JsonShape::List(n) => n,
        _ => 0,
    };
    let mut out: Vec<DepEntry> = Vec::new();
    let mut i: usize = 0;
    proof {
        assert(deps(out@) =~= package_entries_upto(doc@, 0));
    }
    while i < n
        invariant
            i <= n,
            pins@ == pins_pointer(doc@),
            n == pin_count(doc@),
            deps(out@) == package_entries_upto(doc@, i as nat),
        decreases n - i,
    {
        let digits = dec_u64(i as u64);
        let base = cat3(pins, "/", digits.as_str());
        let b = base.as_str();
        let fields = PinFields {
            identity: read_pin_text(doc, b, "/identity"),
            package: read_pin_text(doc, b, "/package"),
            version: read_pin_text(doc, b, "/state/version"),
            branch: read_pin_text(doc, b, "/state/branch"),
            revision: read_pin_text(doc, b, "/state/revision"),
            location: read_pin_text(doc, b, "/location"),
            repository_url: read_pin_text(doc, b, "/repositoryURL"),
        };
        proof {
            assert(fields@ == pin_at(doc@, i as nat));
        }
        match pin_entry(fields) {
            Some(e) => {
                proof {
                    assert(deps(out@.push(e)) =~= deps(out@).push(e@));
                }
                out.push(e);
            },
            None => {},
        }
        i += 1;
    }
    out
}

/// The entry of a line of a `Cartfile.resolved`; comments and blank lines have
/// none.
pub open spec fn cartfile_dep(line: Seq<char>) -> Option<Dep> {
    let t = trimmed(line);
    if t.len() == 0 || t[0] == '#' {
        None
    } else {
        match cartfile_fields(line) {
            Some(f) => Some(flat_library(f.0, Some(f.1), None)),
            None => None,
        }
    }
}

/// The entries of the lines of a `Cartfile.resolved`.
pub open spec fn cartfile_entries(lines: Seq<Seq<char>>) -> Seq<Dep>
    decreases lines.len(),
{
    if lines.len() == 0 {
        Seq::empty()
    } else {
        let r = cartfile_entries(lines.drop_last());
        match cartfile_dep(lines.last()) {
            Some(d) => r.push(d),
            None => r,
        }
    }
}

/// The entries of the text of a `Cartfile.resolved`.
pub fn parse_cartfile_resolved(content: &str) -> (r: Vec<DepEntry>)
    ensures
        deps(r@) == cartfile_entries(line_seq(content@)),
{
    let all = lines(content);
    let ghost ls = strs(all@);
    let mut out: Vec<DepEntry> = Vec::new();
    let mut i: usize = 0;
    proof {
        assert(deps(out@) =~= cartfile_entries(ls.take(0)));
    }
    while i < all.len()
        invariant
            i <= all@.len(),
            ls == strs(all@),
            deps(out@) == cartfile_entries(ls.take(i as int)),
        decreases all@.len() - i,
    {
        let line = all[i].as_str();
        proof {
            assert(ls.take(i + 1).drop_last() =~= ls.take(i as int));
            assert(ls.take(i + 1).last() == line@);
        }
        let t = trim(line);
        let v = to_chars(t.as_str());
        if v.len() > 0 && v[0] != '#' {
            match capture_cartfile(CARTFILE_LINE, line) {
                Some(f) => {
                    let e = flat_entry(f.0, Some(f.1), None);
                    proof {
                        assert(deps(out@.push(e)) =~= deps(out@).push(e@));
                    }
                    out.push(e);
                },
                None => {},
            }
        }
        i += 1;
    }
    proof {
        assert(ls.take(i as int) =~= ls);
    }
    out
}

/// An entry of a manifest without a graph is a direct library without parents, by its own
/// name, version and url.
pub proof fn law_flat_entries_are_direct(
    name: Seq<char>,
    version: Option<Seq<char>>,
    url: Option<Seq<char>>,
)
    ensures
        ({
            let e = flat_library(name, version, url);
            &&& e.id == "library::"@ + name
            &&& e.name == name
            &&& e.version == version
            &&& e.url == url
            &&& e.direct
            &&& e.type_ == "library"@
            &&& e.parents.len() == 0
            &&& e.group.len() == 0
            &&& e.scope is None
        }),
{
    law_ids_of_libraries(name);
}

/// A pin is named by its identity, or else by its package; it is at its version, or else at
/// its branch, or else at its revision; and it comes from its location, or else from its
/// repository. One without a name is left out.
pub proof fn law_pins_become_entries(p: Pin)
    ensures
        p.identity is None && p.package is None ==> pin_dep(p) is None,
        p.identity is Some && p.identity->0.len() > 0 ==> pin_dep(p) is Some && pin_dep(p)->0.name
            == p.identity->0,
        p.identity is None && p.package is Some && p.package->0.len() > 0 ==> pin_dep(p) is Some
            && pin_dep(p)->0.name == p.package->0,
        pin_dep(p) is Some ==> {
            let e = pin_dep(p)->0;
            &&& p.version is Some ==> e.version == p.version
            &&& p.version is None && p.branch is Some ==> e.version == p.branch
            &&& p.version is None && p.branch is None ==> e.version == p.revision
            &&& p.location is Some ==> e.url == p.location
            &&& p.location is None ==> e.url == p.repository_url
            &&& e.direct
        },
{
}

/// Where a `Package.resolved` has its pins: in the list `pins`, or in the older form under
/// `object`. Every pin is read from its own place in that list.
pub proof fn law_pins_are_read_from_their_place(doc: Seq<char>, i: nat)
    ensures
        json_at(doc, "/pins"@) != JsonAt::Absent ==> {
            let at = "/pins/"@ + decimal(i);
            let p = pin_at(doc, i);
            &&& p.identity == text_of(json_at(doc, at + "/identity"@))
            &&& p.package == text_of(json_at(doc, at + "/package"@))
            &&& p.version == text_of(json_at(doc, at + "/state/version"@))
            &&& p.branch == text_of(json_at(doc, at + "/state/branch"@))
            &&& p.revision == text_of(json_at(doc, at + "/state/revision"@))
            &&& p.location == text_of(json_at(doc, at + "/location"@))
            &&& p.repository_url == text_of(json_at(doc, at + "/repositoryURL"@))
        },
        json_at(doc, "/pins"@) == JsonAt::Absent ==> {
            let at = "/object/pins/"@ + decimal(i);
            let p = pin_at(doc, i);
            &&& p.identity == text_of(json_at(doc, at + "/identity"@))
            &&& p.package == text_of(json_at(doc, at + "/package"@))
            &&& p.version == text_of(json_at(doc, at + "/state/version"@))
            &&& p.branch == text_of(json_at(doc, at + "/state/branch"@))
            &&& p.revision == text_of(json_at(doc, at + "/state/revision"@))
            &&& p.location == text_of(json_at(doc, at + "/location"@))
            &&& p.repository_url == text_of(json_at(doc, at + "/repositoryURL"@))
        },
{
    reveal_strlit("/");
    reveal_strlit("/pins");
    reveal_strlit("/pins/");
    reveal_strlit("/object/pins");
    reveal_strlit("/object/pins/");
    assert("/pins"@ + "/"@ =~= "/pins/"@);
    assert("/object/pins"@ + "/"@ =~= "/object/pins/"@);
}

proof fn lemma_pin_is_listed(doc: Seq<char>, n: nat, i: nat)
    requires
        i < n,
        pin_dep(pin_at(doc, i)) is Some,
    ensures
        package_entries_upto(doc, n).contains(pin_dep(pin_at(doc, i))->0),
    decreases n,
{
    let r = package_entries_upto(doc, (n - 1) as nat);
    let out = package_entries_upto(doc, n);
    let x = pin_dep(pin_at(doc, i))->0;
    if i == n - 1 {
        assert(out[r.len() as int] == x);
    } else {
        lemma_pin_is_listed(doc, (n - 1) as nat, i);
        let k = choose|k: int| 0 <= k < r.len() && r[k] == x;
        assert(out[k] == x);
    }
}

/// Every pin with a name has its entry.
pub proof fn law_no_pin_is_lost(doc: Seq<char>, n: nat, i: nat)
    requires
        i < n,
        pin_dep(pin_at(doc, i)) is Some,
        json_at(doc, "/pins"@) == JsonAt::List(n) || (json_at(doc, "/pins"@) == JsonAt::Absent
            && json_at(doc, "/object/pins"@) == JsonAt::List(n)),
    ensures
        package_entries(doc).contains(pin_dep(pin_at(doc, i))->0),
{
    lemma_pin_is_listed(doc, n, i);
}

/// A line `kind "name" "version"` of a `Cartfile.resolved` is an entry of that name and
/// version; a comment and a blank line are none.
pub proof fn law_cartfile_lines(kind: Seq<char>, name: Seq<char>, version: Seq<char>)
    requires
        kind.len() > 0,
        none_white(kind),
        none_quote(kind),
        kind[0] != '#',
        name.len() > 0,
        none_quote(name),
        version.len() > 0,
        none_quote(version),
    ensures
        cartfile_dep(
            kind + seq![' ', '"'] + name + seq!['"', ' ', '"'] + version + seq!['"'],
        ) == Some(flat_library(name, Some(version), None)),
        cartfile_dep(seq!['#'] + name) is None,
        cartfile_dep(Seq::empty()) is None,
{
    let line = kind + seq![' ', '"'] + name + seq!['"', ' ', '"'] + version + seq!['"'];
    let e = Seq::<char>::empty();
    let a = kind.len() as int + 1;
    let b = a + 1 + name.len() as int;
    let c = b + 2;
    let d = c + 1 + version.len() as int;
    let front = line.take(a as int);
    assert(front =~= kind + seq![' ']);
    law_trimming_takes_the_ends(e, kind, seq![' ']);
    assert(e + kind + seq![' '] =~= front);
    assert(kind[0] == kind[0] && !is_white(kind[kind.len() - 1]));
    assert(line.subrange(a + 1, b as int) =~= name);
    assert(line.subrange(b + 1, c as int) =~= seq![' ']);
    assert(line.subrange(c + 1, d as int) =~= version);
    assert(line.skip(d + 1) =~= e);
    assert(cartfile_quotes(line, a as int, b as int, c as int, d as int));
    assert forall|i: int| 0 <= i < line.len() && is_quote(#[trigger] line[i]) implies i == a || i
        == b || i == c || i == d by {
        if i < kind.len() {
            assert(line[i] == kind[i]);
        } else if i > a && i < b {
            assert(line[i] == name[i - a - 1]);
        } else if i > c && i < d {
            assert(line[i] == version[i - c - 1]);
        }
    }
    let (p, q, r, s) = choose|p: int, q: int, r: int, s: int| #[trigger]
        cartfile_quotes(line, p, q, r, s);
    assert(cartfile_quotes(line, p, q, r, s));
    assert(p == a && q == b && r == c && s == d);
    assert(line[0] == kind[0]);
    assert(line.last() == '"');
    law_trimming_takes_the_ends(e, line, e);
    assert(e + line + e =~= line);
    let x = seq!['#'] + name;
    lemma_keeps_front(x);
}

proof fn lemma_keeps_front(x: Seq<char>)
    requires
        x.len() > 0,
        !is_white(x[0]),
    ensures
        trimmed(x).len() > 0,
        trimmed(x)[0] == x[0],
        trimmed(Seq::<char>::empty()).len() == 0,
{
    lemma_end_keeps_front(x);
}

proof fn lemma_end_keeps_front(x: Seq<char>)
    requires
        x.len() > 0,
        !is_white(x[0]),
    ensures
        trimmed_end(x).len() > 0,
        trimmed_end(x)[0] == x[0],
    decreases x.len(),
{
    if is_white(x.last()) {
        assert(x.len() > 1);
        assert(x.drop_last()[0] == x[0]);
        lemma_end_keeps_front(x.drop_last());
    }
}

/// Every field of a pin is read from its own place, counted from the list of pins at the top
/// or, where that is absent, under `object`.
pub proof fn law_fields_of_a_pin(doc: Seq<char>, i: nat)
    ensures
        ({
            let list = if json_at(doc, "/pins"@) == JsonAt::Absent {
                "/object/pins"@
            } else {
                "/pins"@
            };
            let at = list + "/"@ + decimal(i);
            let p = pin_at(doc, i);
            &&& p.identity == text_of(json_at(doc, at + "/identity"@))
            &&& p.package == text_of(json_at(doc, at + "/package"@))
            &&& p.version == text_of(json_at(doc, at + "/state/version"@))
            &&& p.branch == text_of(json_at(doc, at + "/state/branch"@))
            &&& p.revision == text_of(json_at(doc, at + "/state/revision"@))
            &&& p.location == text_of(json_at(doc, at + "/location"@))
            &&& p.repository_url == text_of(json_at(doc, at + "/repositoryURL"@))
            &&& json_at(doc, list) is List ==> pin_count(doc) == json_at(doc, list)->List_0
            &&& json_at(doc, list) !is List ==> pin_count(doc) == 0
        }),
{
}

} // verus!
