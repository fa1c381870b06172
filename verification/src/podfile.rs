//! Reading `Podfile.lock`.
//!
//! The `PODS` section lists every pod with the pods it depends on; the
//! `DEPENDENCIES` section lists those that the user declared.
use crate::dep_entry::{
    Dep, DepEntry, copy_opt, dep_id, dep_ids, deps, law_ids_of_libraries, make_dep_id,
};
use crate::patterns::all_white;
use crate::text::{
    before, from_range, has_prefix, has_suffix, index_before, is_white, law_before_the_first,
    law_prefixes_and_suffixes, law_trimming_takes_the_ends, line_seq, lines, opt_str, str_eq,
    strip_prefix, strip_suffix, strs, take_before, to_chars, trim, trim_end, trimmed, trimmed_end,
    trimmed_start,
};
use vstd::prelude::*;
use vstd::string::*;

verus! {

pub open spec fn is_upper(c: char) -> bool {
    'A' <= c <= 'Z'
}

/// A section header: a capital, then at least one more capital, space or underscore,
/// then a colon at the end of the line.
pub open spec fn is_header(line: Seq<char>) -> bool {
    &&& line.len() >= 3
    &&& line.last() == ':'
    &&& is_upper(line[0])
    &&& forall|i: int|
        1 <= i < line.len() - 1 ==> is_upper(#[trigger] line[i]) || line[i] == ' ' || line[i] == '_'
}

/// The name of the section that a line opens.
pub open spec fn header_name(line: Seq<char>) -> Option<Seq<char>> {
    let t = trimmed_end(line);
    if is_header(t) {
        Some(trimmed(t.drop_last()))
    } else {
        None
    }
}

/// The section that is open after these lines.
pub open spec fn open_section(lines: Seq<Seq<char>>) -> Option<Seq<char>>
    decreases lines.len(),
{
    if lines.len() == 0 {
        None
    } else {
        match header_name(lines.last()) {
            Some(h) => Some(h),
            None => open_section(lines.drop_last()),
        }
    }
}

/// The lines that stand under the headers of one name.
pub open spec fn section(lines: Seq<Seq<char>>, name: Seq<char>) -> Seq<Seq<char>>
    decreases lines.len(),
{
    if lines.len() == 0 {
        Seq::empty()
    } else {
        let r = section(lines.drop_last(), name);
        if header_name(lines.last()) is None && open_section(lines.drop_last()) == Some(name) {
            r.push(lines.last())
        } else {
            r
        }
    }
}

/// A reference without the version or constraint in brackets behind it.
pub open spec fn bare_reference(s: Seq<char>) -> Seq<char> {
    trimmed(before(s, '('))
}

/// `Name (Version)` taken apart.
pub open spec fn name_and_version(body: Seq<char>) -> (Seq<char>, Option<Seq<char>>) {
    let head = before(body, '(');
    if head.len() < body.len() {
        let rest = body.skip(head.len() as int + 1);
        let inner = before(rest, ')');
        if inner.len() < rest.len() {
            (trimmed(head), Some(trimmed(inner)))
        } else {
            (trimmed(body), None)
        }
    } else {
        (trimmed(body), None)
    }
}

/// What a pod line says, without the colon at its end.
pub open spec fn pod_body(line: Seq<char>) -> Seq<char> {
    let body = line.skip(4);
    if has_suffix(body, ":"@) {
        body.drop_last()
    } else {
        body
    }
}

pub open spec fn is_blank(line: Seq<char>) -> bool {
    trimmed(line).len() == 0
}

pub open spec fn is_child_line(line: Seq<char>) -> bool {
    !is_blank(line) && has_prefix(line, "    - "@)
}

pub open spec fn is_pod_line(line: Seq<char>) -> bool {
    !is_blank(line) && !is_child_line(line) && has_prefix(line, "  - "@)
}

/// A pod as the lock file declares it.
pub struct Pod {
    pub name: Seq<char>,
    pub version: Option<Seq<char>>,
    pub children: Seq<Seq<char>>,
}

/// The pods that the lines declare, each with the references under it.
pub open spec fn declared(lines: Seq<Seq<char>>) -> Seq<Pod>
    decreases lines.len(),
{
    if lines.len() == 0 {
        Seq::empty()
    } else {
        let r = declared(lines.drop_last());
        let line = lines.last();
        if is_child_line(line) {
            if r.len() > 0 {
                r.update(
                    r.len() - 1,
                    Pod {
                        children: r.last().children.push(bare_reference(line.skip(6))),
                        ..r.last()
                    },
                )
            } else {
                r
            }
        } else if is_pod_line(line) {
            let nv = name_and_version(pod_body(line));
            r.push(Pod { name: nv.0, version: nv.1, children: Seq::empty() })
        } else {
            r
        }
    }
}

/// The names that the lines of a `DEPENDENCIES` section list.
pub open spec fn listed_names(lines: Seq<Seq<char>>) -> Seq<Seq<char>>
    decreases lines.len(),
{
    if lines.len() == 0 {
        Seq::empty()
    } else {
        let r = listed_names(lines.drop_last());
        let line = lines.last();
        if !is_blank(line) && has_prefix(line, "  - "@) {
            r.push(bare_reference(line.skip(4)))
        } else {
            r
        }
    }
}

/// The declaration that counts for a name: the last one.
pub open spec fn governing(pods: Seq<Pod>, name: Seq<char>) -> Option<Pod>
    decreases pods.len(),
{
    if pods.len() == 0 {
        None
    } else if pods.last().name == name {
        Some(pods.last())
    } else {
        governing(pods.drop_last(), name)
    }
}

/// The owner once for every reference to `name`.
pub open spec fn edges(children: Seq<Seq<char>>, name: Seq<char>, owner: Seq<char>) -> Seq<Seq<char>>
    decreases children.len(),
{
    if children.len() == 0 {
        Seq::empty()
    } else {
        let r = edges(children.drop_last(), name, owner);
        if children.last() == name {
            r.push(owner)
        } else {
            r
        }
    }
}

/// The ids of the pods that refer to `name`, in the order of the pods `owners`.
pub open spec fn parents_of(owners: Seq<Pod>, pods: Seq<Pod>, name: Seq<char>) -> Seq<Seq<char>>
    decreases owners.len(),
{
    if owners.len() == 0 {
        Seq::empty()
    } else {
        let o = owners.last().name;
        parents_of(owners.drop_last(), pods, name) + edges(
            governing(pods, o)->0.children,
            name,
            dep_id("library"@, Seq::empty(), o),
        )
    }
}

/// The entry of one declared pod.
pub open spec fn pod_entry(pods: Seq<Pod>, direct: Seq<Seq<char>>, name: Seq<char>) -> Dep {
    Dep {
        id: dep_id("library"@, Seq::empty(), name),
        group: Seq::empty(),
        name,
        version: governing(pods, name)->0.version,
        direct: direct.contains(name),
        scope: None,
        type_: "library"@,
        parents: parents_of(pods, pods, name),
        url: None,
    }
}

/// The entries of a lock file, in the order of its pods.
pub open spec fn podfile_entries(content: Seq<char>) -> Seq<Dep> {
    let lines = line_seq(content);
    let pods = declared(section(lines, "PODS"@));
    let direct = listed_names(section(lines, "DEPENDENCIES"@));
    pods.map_values(|p: Pod| pod_entry(pods, direct, p.name))
}

struct PodInfo {
    name: String,
    version: Option<String>,
    children: Vec<String>,
}

impl View for PodInfo {
    type V = Pod;

    closed spec fn view(&self) -> Pod {
        Pod { name: self.name@, version: opt_str(self.version), children: strs(self.children@) }
    }
}

spec fn pod_views(v: Seq<PodInfo>) -> Seq<Pod> {
    v.map_values(|p: PodInfo| p@)
}

/// Whether a line is a section header, whatever white space follows it.
pub fn is_section_header(line: &str) -> (r: bool)
    ensures
        r == is_header(trimmed_end(line@)),
{
    let t = trim_end(line);
    let v = to_chars(t.as_str());
    if v.len() < 3 || v[v.len() - 1] != ':' {
        return false;
    }
    if !('A' <= v[0] && v[0] <= 'Z') {
        return false;
    }
    let mut i: usize = 1;
    while i < v.len() - 1
        invariant
            1 <= i <= v@.len() - 1,
            v@ == trimmed_end(line@),
            v@.len() >= 3,
            v@.last() == ':',
            is_upper(v@[0]),
            forall|j: int|
                1 <= j < i ==> is_upper(#[trigger] v@[j]) || v@[j] == ' ' || v@[j] == '_',
        decreases v@.len() - i,
    {
        let c = v[i];
        if !(('A' <= c && c <= 'Z') || c == ' ' || c == '_') {
            return false;
        }
        i += 1;
    }
    true
}

/// A reference without the version or constraint in brackets behind it.
pub fn strip_pod_version_paren(s: &str) -> (r: String)
    ensures
        r@ == bare_reference(s@),
{
    let head = take_before(s, '(');
    trim(head.as_str())
}

/// What follows the bullet of a pod line, without a colon at its end.
pub fn parse_pod_line(line: &str) -> (r: Option<String>)
    ensures
        r is Some <==> has_prefix(line@, "  - "@),
        r is Some ==> r->0@ == pod_body(line@),
{
    proof {
        reveal_strlit("  - ");
        reveal_strlit(":");
    }
    match strip_prefix(line, "  - ") {
        Some(body) => match strip_suffix(body.as_str(), ":") {
            Some(b) => {
                proof {
                    assert(b@ =~= body@.drop_last());
                }
                Some(b)
            },
            None => Some(body),
        },
        None => None,
    }
}

/// What follows the bullet of a child line.
pub fn parse_child_line(line: &str) -> (r: Option<String>)
    ensures
        r is Some <==> has_prefix(line@, "    - "@),
        r is Some ==> r->0@ == line@.skip(6),
{
    proof {
        reveal_strlit("    - ");
    }
    strip_prefix(line, "    - ")
}

/// What follows the bullet of a line under `DEPENDENCIES`.
pub fn parse_dep_line(line: &str) -> (r: Option<String>)
    ensures
        r is Some <==> has_prefix(line@, "  - "@),
        r is Some ==> r->0@ == line@.skip(4),
{
    proof {
        reveal_strlit("  - ");
    }
    strip_prefix(line, "  - ")
}

/// `Name (Version)` taken apart.
pub fn parse_name_version(body: &str) -> (r: (String, Option<String>))
    ensures
        (r.0@, opt_str(r.1)) == name_and_version(body@),
{
    let v = to_chars(body);
    let open = index_before(body, '(');
    if open < v.len() {
        let rest = from_range(&v, open + 1, v.len());
        proof {
            assert(rest@ =~= body@.skip(open + 1));
        }
        let close = index_before(rest.as_str(), ')');
        let w = to_chars(rest.as_str());
        if close < w.len() {
            let head = from_range(&v, 0, open);
            let inner = from_range(&w, 0, close);
            return (trim(head.as_str()), Some(trim(inner.as_str())));
        }
    }
    (trim(body), None)
}

/// The lines under `PODS` and those under `DEPENDENCIES`.
fn split_sections(all: &Vec<String>) -> (r: (Vec<String>, Vec<String>))
    ensures
        strs(r.0@) == section(strs(all@), "PODS"@),
        strs(r.1@) == section(strs(all@), "DEPENDENCIES"@),
{
    let ghost ls = strs(all@);
    let mut pods: Vec<String> = Vec::new();
    let mut deps_lines: Vec<String> = Vec::new();
    let mut current: Option<String> = None;
    let mut i: usize = 0;
    proof {
        assert(strs(pods@) =~= section(ls.take(0), "PODS"@));
        assert(strs(deps_lines@) =~= section(ls.take(0), "DEPENDENCIES"@));
    }
    while i < all.len()
        invariant
            i <= all@.len(),
            ls == strs(all@),
            opt_str(current) == open_section(ls.take(i as int)),
            strs(pods@) == section(ls.take(i as int), "PODS"@),
            strs(deps_lines@) == section(ls.take(i as int), "DEPENDENCIES"@),
        decreases all@.len() - i,
    {
        let line = &all[i];
        proof {
            assert(ls.take(i + 1).drop_last() =~= ls.take(i as int));
            assert(ls.take(i + 1).last() == line@);
        }
        let t = trim_end(line.as_str());
        if is_section_header(line.as_str()) {
            let v = to_chars(t.as_str());
            let head = from_range(&v, 0, v.len() - 1);
            proof {
                assert(head@ =~= t@.drop_last());
            }
            current = Some(trim(head.as_str()));
        } else {
            match &current {
                Some(h) => {
                    let in_pods = str_eq(h.as_str(), "PODS");
                    let in_deps = str_eq(h.as_str(), "DEPENDENCIES");
                    if in_pods {
                        let c = line.clone();
                        proof {
                            assert(strs(pods@.push(c)) =~= strs(pods@).push(c@));
                        }
                        pods.push(c);
                    }
                    if in_deps {
                        let c = line.clone();
                        proof {
                            assert(strs(deps_lines@.push(c)) =~= strs(deps_lines@).push(c@));
                        }
                        deps_lines.push(c);
                    }
                },
                None => {},
            }
        }
        i += 1;
    }
    proof {
        assert(ls.take(i as int) =~= ls);
    }
    (pods, deps_lines)
}

fn read_pods(lines_in: &Vec<String>) -> (r: Vec<PodInfo>)
    ensures
        pod_views(r@) == declared(strs(lines_in@)),
{
    let ghost ls = strs(lines_in@);
    let mut pods: Vec<PodInfo> = Vec::new();
    let mut i: usize = 0;
    proof {
        assert(pod_views(pods@) =~= declared(ls.take(0)));
    }
    while i < lines_in.len()
        invariant
            i <= lines_in@.len(),
            ls == strs(lines_in@),
            pod_views(pods@) == declared(ls.take(i as int)),
        decreases lines_in@.len() - i,
    {
        let line = lines_in[i].as_str();
        let ghost r = pod_views(pods@);
        proof {
            assert(ls.take(i + 1).drop_last() =~= ls.take(i as int));
            assert(ls.take(i + 1).last() == line@);
        }
        let blank = trim(line);
        if !blank.as_str().is_empty() {
            match parse_child_line(line) {
                Some(child) => {
                    if pods.len() > 0 {
                        let reference = strip_pod_version_paren(child.as_str());
                        let mut last = pods.pop().unwrap();
                        let ghost kids = strs(last.children@);
                        proof {
                            assert(r.last() == last@);
                            assert(strs(last.children@.push(reference)) =~= kids.push(reference@));
                        }
                        last.children.push(reference);
                        proof {
                            assert(pod_views(pods@.push(last)) =~= r.update(r.len() - 1, last@));
                        }
                        pods.push(last);
                    }
                },
                None => {
                    match parse_pod_line(line) {
                        Some(body) => {
                            let nv = parse_name_version(body.as_str());
                            let children: Vec<String> = Vec::new();
                            let p = PodInfo { name: nv.0, version: nv.1, children };
                            proof {
                                assert(strs(p.children@) =~= Seq::empty());
                                assert(pod_views(pods@.push(p)) =~= r.push(p@));
                            }
                            pods.push(p);
                        },
                        None => {},
                    }
                },
            }
        }
        i += 1;
    }
    proof {
        assert(ls.take(i as int) =~= ls);
    }
    pods
}

fn read_names(lines_in: &Vec<String>) -> (r: Vec<String>)
    ensures
        strs(r@) == listed_names(strs(lines_in@)),
{
    let ghost ls = strs(lines_in@);
    let mut names: Vec<String> = Vec::new();
    let mut i: usize = 0;
    proof {
        assert(strs(names@) =~= listed_names(ls.take(0)));
    }
    while i < lines_in.len()
        invariant
            i <= lines_in@.len(),
            ls == strs(lines_in@),
            strs(names@) == listed_names(ls.take(i as int)),
        decreases lines_in@.len() - i,
    {
        let line = lines_in[i].as_str();
        proof {
            assert(ls.take(i + 1).drop_last() =~= ls.take(i as int));
            assert(ls.take(i + 1).last() == line@);
        }
        let blank = trim(line);
        if !blank.as_str().is_empty() {
            match parse_dep_line(line) {
                Some(body) => {
                    let n = strip_pod_version_paren(body.as_str());
                    proof {
                        assert(strs(names@.push(n)) =~= strs(names@).push(n@));
                    }
                    names.push(n);
                },
                None => {},
            }
        }
        i += 1;
    }
    proof {
        assert(ls.take(i as int) =~= ls);
    }
    names
}

/// Whether `x` is one of the strings.
pub fn has_string(v: &Vec<String>, x: &String) -> (r: bool)
    ensures
        r == strs(v@).contains(x@),
{
    let mut i: usize = 0;
    while i < v.len()
        invariant
            i <= v@.len(),
            forall|j: int| 0 <= j < i ==> strs(v@)[j] != x@,
        decreases v@.len() - i,
    {
        proof {
            assert(strs(v@)[i as int] == v@[i as int]@);
        }
        if v[i] == *x {
            return true;
        }
        i += 1;
    }
    false
}

proof fn lemma_governing_exists(pods: Seq<Pod>, k: int)
    requires
        0 <= k < pods.len(),
    ensures
        governing(pods, pods[k].name) is Some,
    decreases pods.len(),
{
    if k < pods.len() - 1 {
        lemma_governing_exists(pods.drop_last(), k);
    }
}

/// The place of the declaration that counts for the name of `pods[k]`.
fn find_governing(pods: &Vec<PodInfo>, k: usize) -> (i: usize)
    requires
        k < pods@.len(),
    ensures
        i < pods@.len(),
        governing(pod_views(pods@), pods@[k as int]@.name) == Some(pods@[i as int]@),
{
    let ghost all = pod_views(pods@);
    let ghost name = pods@[k as int]@.name;
    let mut i: usize = pods.len();
    proof {
        assert(all.take(i as int) =~= all);
        assert(all[k as int].name == name);
        lemma_governing_exists(all, k as int);
    }
    while i > k + 1
        invariant
            k < i <= pods@.len(),
            all == pod_views(pods@),
            name == pods@[k as int]@.name,
            governing(all, name) == governing(all.take(i as int), name),
        decreases i,
    {
        proof {
            assert(all.take(i as int).drop_last() =~= all.take(i - 1));
            assert(all.take(i as int).last() == pods@[i - 1]@);
        }
        if pods[i - 1].name == pods[k].name {
            return i - 1;
        }
        i -= 1;
    }
    proof {
        assert(all.take(i as int).last() == pods@[k as int]@);
    }
    k
}

fn collect_parents(pods: &Vec<PodInfo>, name: &String) -> (r: Vec<String>)
    ensures
        strs(r@) == parents_of(pod_views(pods@), pod_views(pods@), name@),
{
    let ghost all = pod_views(pods@);
    let mut out: Vec<String> = Vec::new();
    let mut i: usize = 0;
    proof {
        assert(strs(out@) =~= parents_of(all.take(0), all, name@));
    }
    while i < pods.len()
        invariant
            i <= pods@.len(),
            all == pod_views(pods@),
            strs(out@) == parents_of(all.take(i as int), all, name@),
        decreases pods@.len() - i,
    {
        let g = find_governing(pods, i);
        let owner = make_dep_id("library", "", pods[i].name.as_str());
        let children = &pods[g].children;
        let ghost base = strs(out@);
        let ghost kids = strs(children@);
        proof {
            reveal_strlit("");
            assert(""@ =~= Seq::<char>::empty());
            assert(all.take(i + 1).drop_last() =~= all.take(i as int));
            assert(all.take(i + 1).last() == pods@[i as int]@);
            assert(base + edges(kids.take(0), name@, owner@) =~= base);
        }
        let mut j: usize = 0;
        while j < children.len()
            invariant
                j <= children@.len(),
                kids == strs(children@),
                strs(out@) == base + edges(kids.take(j as int), name@, owner@),
            decreases children@.len() - j,
        {
            proof {
                assert(kids.take(j + 1).drop_last() =~= kids.take(j as int));
                assert(kids.take(j + 1).last() == children@[j as int]@);
            }
            if children[j] == *name {
                let c = owner.clone();
                proof {
                    assert(strs(out@.push(c)) =~= strs(out@).push(c@));
                    assert(base + edges(kids.take(j as int), name@, owner@).push(owner@) =~= (base
                        + edges(kids.take(j as int), name@, owner@)).push(owner@));
                }
                out.push(c);
            }
            j += 1;
        }
        proof {
            assert(kids.take(j as int) =~= kids);
        }
        i += 1;
    }
    proof {
        assert(all.take(i as int) =~= all);
    }
    out
}

/// The entries of the text of a `Podfile.lock`.
pub fn parse_podfile_lock(content: &str) -> (r: Vec<DepEntry>)
    ensures
        deps(r@) == podfile_entries(content@),
{
    let all_lines = lines(content);
    let parts = split_sections(&all_lines);
    let pods = read_pods(&parts.0);
    let direct = read_names(&parts.1);
    let ghost all = pod_views(pods@);
    let mut out: Vec<DepEntry> = Vec::new();
    let mut i: usize = 0;
    while i < pods.len()
        invariant
            i <= pods@.len(),
            all == pod_views(pods@),
            out@.len() == i,
            forall|k: int|
                0 <= k < i ==> (#[trigger] out@[k])@ == pod_entry(all, strs(direct@), all[k].name),
        decreases pods@.len() - i,
    {
        let name = pods[i].name.clone();
        let g = find_governing(&pods, i);
        let e = DepEntry {
            id: make_dep_id("library", "", name.as_str()),
            group: String::new(),
            version: copy_opt(&pods[g].version),
            direct: has_string(&direct, &name),
            scope: None,
            type_: "library".to_owned(),
            parents: collect_parents(&pods, &name),
            url: None,
            name,
        };
        proof {
            reveal_strlit("");
            assert(""@ =~= Seq::<char>::empty());
            assert(all[i as int].name == pods@[i as int]@.name);
            assert(e@ == pod_entry(all, strs(direct@), all[i as int].name));
        }
        out.push(e);
        i += 1;
    }
    proof {
        assert(deps(out@) =~= podfile_entries(content@));
    }
    out
}

proof fn lemma_edges_owner(children: Seq<Seq<char>>, name: Seq<char>, owner: Seq<char>)
    ensures
        forall|k: int|
            0 <= k < edges(children, name, owner).len() ==> #[trigger] edges(
                children,
                name,
                owner,
            )[k] == owner,
    decreases children.len(),
{
    if children.len() > 0 {
        let r = edges(children.drop_last(), name, owner);
        lemma_edges_owner(children.drop_last(), name, owner);
        assert forall|k: int| 0 <= k < edges(children, name, owner).len() implies #[trigger] edges(
            children,
            name,
            owner,
        )[k] == owner by {
            if k < r.len() {
                assert(edges(children, name, owner)[k] == r[k]);
            }
        }
    }
}

proof fn lemma_parents_are_pods(owners: Seq<Pod>, pods: Seq<Pod>, name: Seq<char>, k: int)
    requires
        0 <= k < parents_of(owners, pods, name).len(),
    ensures
        exists|i: int|
            0 <= i < owners.len() && parents_of(owners, pods, name)[k] == dep_id(
                "library"@,
                Seq::empty(),
                (#[trigger] owners[i]).name,
            ),
    decreases owners.len(),
{
    let r = parents_of(owners.drop_last(), pods, name);
    let o = owners.last().name;
    let id = dep_id("library"@, Seq::empty(), o);
    if k < r.len() {
        lemma_parents_are_pods(owners.drop_last(), pods, name, k);
        let i = choose|i: int|
            0 <= i < owners.drop_last().len() && r[k] == dep_id(
                "library"@,
                Seq::empty(),
                (#[trigger] owners.drop_last()[i]).name,
            );
        assert(owners[i] == owners.drop_last()[i]);
    } else {
        lemma_edges_owner(governing(pods, o)->0.children, name, id);
        assert(owners[owners.len() - 1].name == o);
    }
}

/// Every parent that an entry of a lock file names is itself an entry of it.
pub proof fn law_podfile_parents_are_listed(content: Seq<char>, i: int, k: int)
    requires
        0 <= i < podfile_entries(content).len(),
        0 <= k < podfile_entries(content)[i].parents.len(),
    ensures
        dep_ids(podfile_entries(content)).contains(podfile_entries(content)[i].parents[k]),
{
    let lines = line_seq(content);
    let pods = declared(section(lines, "PODS"@));
    let out = podfile_entries(content);
    lemma_parents_are_pods(pods, pods, pods[i].name, k);
    let m = choose|m: int|
        0 <= m < pods.len() && out[i].parents[k] == dep_id(
            "library"@,
            Seq::empty(),
            (#[trigger] pods[m]).name,
        );
    assert(dep_ids(out)[m] == out[m].id);
}

/// A name as a lock file holds it: not empty, without brackets, and without white space at
/// its ends.
pub open spec fn is_pod_name(name: Seq<char>) -> bool {
    &&& name.len() > 0
    &&& !name.contains('(')
    &&& !is_white(name[0])
    &&& !is_white(name.last())
}

/// A version as it stands in brackets.
pub open spec fn is_pod_version(v: Seq<char>) -> bool {
    &&& !v.contains(')')
    &&& v.len() > 0 ==> !is_white(v[0]) && !is_white(v.last())
}

proof fn lemma_not_blank(line: Seq<char>, i: int)
    requires
        0 <= i < line.len(),
        !is_white(line[i]),
    ensures
        !is_blank(line),
{
    let (a, b) = lemma_trim_parts(line);
    if is_blank(line) {
        assert(line =~= a + b);
        if i < a.len() {
            assert(line[i] == a[i]);
        } else {
            assert(line[i] == b[i - a.len()]);
        }
    }
}

/// A text is its trimmed form with white space around it.
proof fn lemma_trim_parts(s: Seq<char>) -> (r: (Seq<char>, Seq<char>))
    ensures
        s == r.0 + trimmed(s) + r.1,
        all_white(r.0),
        all_white(r.1),
{
    let a = lemma_start_part(s);
    let b = lemma_end_part(trimmed_start(s));
    assert(s =~= a + trimmed(s) + b);
    (a, b)
}

proof fn lemma_start_part(s: Seq<char>) -> (a: Seq<char>)
    ensures
        s == a + trimmed_start(s),
        all_white(a),
    decreases s.len(),
{
    if s.len() > 0 && is_white(s[0]) {
        let a = lemma_start_part(s.skip(1));
        let r = seq![s[0]] + a;
        assert(s =~= r + trimmed_start(s)) by {
            assert(s =~= seq![s[0]] + s.skip(1));
        }
        assert forall|i: int| 0 <= i < r.len() implies is_white(#[trigger] r[i]) by {
            if i > 0 {
                assert(r[i] == a[i - 1]);
            }
        }
        r
    } else {
        assert(s =~= Seq::<char>::empty() + s);
        Seq::empty()
    }
}

proof fn lemma_end_part(s: Seq<char>) -> (b: Seq<char>)
    ensures
        s == trimmed_end(s) + b,
        all_white(b),
    decreases s.len(),
{
    if s.len() > 0 && is_white(s.last()) {
        let b = lemma_end_part(s.drop_last());
        let r = b.push(s.last());
        assert(s =~= trimmed_end(s) + r) by {
            assert(s =~= s.drop_last().push(s.last()));
        }
        assert forall|i: int| 0 <= i < r.len() implies is_white(#[trigger] r[i]) by {
            if i < b.len() {
                assert(r[i] == b[i]);
            }
        }
        r
    } else {
        assert(s =~= s + Seq::<char>::empty());
        Seq::empty()
    }
}

/// A header of a section opens it, whatever was open before, and the lines behind it, up to
/// the next header, are the section; lines before any header belong to none.
pub proof fn law_headers_open_sections(lines: Seq<Seq<char>>, line: Seq<char>, name: Seq<char>)
    ensures
        header_name(line) is Some ==> open_section(lines.push(line)) == header_name(line),
        header_name(line) is None ==> open_section(lines.push(line)) == open_section(lines),
        header_name(line) is Some ==> section(lines.push(line), name) == section(lines, name),
        header_name(line) is None && open_section(lines) == Some(name) ==> section(
            lines.push(line),
            name,
        ) == section(lines, name).push(line),
        header_name(line) is None && open_section(lines) != Some(name) ==> section(
            lines.push(line),
            name,
        ) == section(lines, name),
        header_name("PODS:"@) == Some("PODS"@),
        header_name("DEPENDENCIES:"@) == Some("DEPENDENCIES"@),
        header_name("SPEC REPOS:"@) == Some("SPEC REPOS"@),
        has_prefix(line, "  - "@) || has_prefix(line, "    - "@) ==> header_name(line) is None,
{
    assert(lines.push(line).drop_last() =~= lines);
    reveal_strlit("PODS:");
    reveal_strlit("PODS");
    reveal_strlit("DEPENDENCIES:");
    reveal_strlit("DEPENDENCIES");
    reveal_strlit("SPEC REPOS:");
    reveal_strlit("SPEC REPOS");
    reveal_strlit("  - ");
    reveal_strlit("    - ");
    let e = Seq::<char>::empty();
    law_trimming_takes_the_ends(e, "PODS:"@, e);
    law_trimming_takes_the_ends(e, "DEPENDENCIES:"@, e);
    law_trimming_takes_the_ends(e, "SPEC REPOS:"@, e);
    law_trimming_takes_the_ends(e, "PODS"@, e);
    law_trimming_takes_the_ends(e, "DEPENDENCIES"@, e);
    law_trimming_takes_the_ends(e, "SPEC REPOS"@, e);
    assert("PODS:"@ + e =~= "PODS:"@);
    assert("DEPENDENCIES:"@ + e =~= "DEPENDENCIES:"@);
    assert("SPEC REPOS:"@ + e =~= "SPEC REPOS:"@);
    assert("PODS:"@.drop_last() =~= "PODS"@);
    assert("DEPENDENCIES:"@.drop_last() =~= "DEPENDENCIES"@);
    assert("SPEC REPOS:"@.drop_last() =~= "SPEC REPOS"@);
    if has_prefix(line, "  - "@) || has_prefix(line, "    - "@) {
        assert(line.take(4)[0] == ' ' || line.take(6)[0] == ' ');
        assert(line[0] == ' ');
        let b = lemma_end_part(line);
        let t = trimmed_end(line);
        if t.len() > 0 {
            assert(t[0] == line[0]);
        }
    }
}

proof fn lemma_bare(w: Seq<char>, name: Seq<char>, v: Seq<char>, rest: Seq<char>)
    requires
        is_pod_name(name),
        all_white(w),
        all_white(v),
        rest.len() == 0 || rest[0] == '(',
    ensures
        bare_reference(w + name + v + rest) == name,
{
    let head = w + name + v;
    assert(!head.contains('(')) by {
        if head.contains('(') {
            let k = choose|k: int| 0 <= k < head.len() && head[k] == '(';
            if k < w.len() {
                assert(head[k] == w[k]);
            } else if k < w.len() + name.len() {
                assert(head[k] == name[k - w.len()]);
                assert(name.contains(name[k - w.len()]));
            } else {
                assert(head[k] == v[k - w.len() - name.len()]);
            }
        }
    }
    law_trimming_takes_the_ends(w, name, v);
    if rest.len() == 0 {
        assert(head + rest =~= head);
        law_before_the_first(head, '(', Seq::empty());
    } else {
        assert(head + rest =~= head + seq!['('] + rest.skip(1));
        law_before_the_first(head, '(', rest.skip(1));
    }
}

/// A line declares a pod of this name: a bullet, the name, and nothing or something in
/// brackets behind it.
pub open spec fn declares(line: Seq<char>, name: Seq<char>) -> bool {
    exists|w: Seq<char>, v: Seq<char>, rest: Seq<char>|
        #![trigger w + name + v + rest]
        all_white(w) && all_white(v) && (rest.len() == 0 || rest[0] == '(') && line == "  - "@ + (w
            + name + v + rest)
}

proof fn lemma_declares(line: Seq<char>, name: Seq<char>)
    requires
        is_pod_name(name),
    ensures
        declares(line, name) <==> has_prefix(line, "  - "@) && bare_reference(line.skip(4)) == name,
        declares(line, name) ==> !is_blank(line),
{
    reveal_strlit("  - ");
    let p = "  - "@;
    if declares(line, name) {
        let (w, v, rest) = choose|w: Seq<char>, v: Seq<char>, rest: Seq<char>|
            #![trigger w + name + v + rest]
            all_white(w) && all_white(v) && (rest.len() == 0 || rest[0] == '(') && line == p + (w
                + name + v + rest);
        lemma_bare(w, name, v, rest);
        law_prefixes_and_suffixes(p, w + name + v + rest);
        assert(line.skip(4) =~= w + name + v + rest);
        assert(line[2] == '-');
        lemma_not_blank(line, 2);
    }
    if has_prefix(line, p) && bare_reference(line.skip(4)) == name {
        let s = line.skip(4);
        let head = before(s, '(');
        let (w, v) = lemma_trim_parts(head);
        let rest = s.skip(head.len() as int);
        lemma_before_splits(s, '(');
        assert(s =~= head + rest);
        assert(line =~= p + (w + name + v + rest)) by {
            assert(line =~= line.take(4) + s);
        }
    }
}

proof fn lemma_before_splits(s: Seq<char>, c: char)
    ensures
        before(s, c).len() <= s.len(),
        before(s, c) == s.take(before(s, c).len() as int),
        before(s, c).len() < s.len() ==> s[before(s, c).len() as int] == c,
    decreases s.len(),
{
    if s.len() > 0 && s[0] != c {
        lemma_before_splits(s.skip(1), c);
        let b = before(s.skip(1), c);
        assert(before(s, c) =~= s.take(1 + b.len() as int));
    } else {
        assert(s.take(0) =~= Seq::empty());
    }
}

proof fn lemma_listed(lines: Seq<Seq<char>>, name: Seq<char>)
    requires
        is_pod_name(name),
    ensures
        listed_names(lines).contains(name) <==> exists|k: int|
            0 <= k < lines.len() && declares(#[trigger] lines[k], name),
    decreases lines.len(),
{
    if lines.len() > 0 {
        let d = lines.drop_last();
        let line = lines.last();
        lemma_listed(d, name);
        lemma_declares(line, name);
        let r = listed_names(d);
        let out = listed_names(lines);
        if !is_blank(line) && has_prefix(line, "  - "@) {
            let n = bare_reference(line.skip(4));
            assert(out[r.len() as int] == n);
            if out.contains(name) && n != name {
                let k = choose|k: int| 0 <= k < out.len() && out[k] == name;
                assert(r[k] == name);
            }
            if r.contains(name) {
                let k = choose|k: int| 0 <= k < r.len() && r[k] == name;
                assert(out[k] == name);
            }
        }
        assert(lines[lines.len() - 1] == line);
        if exists|k: int| 0 <= k < d.len() && declares(#[trigger] d[k], name) {
            let k = choose|k: int| 0 <= k < d.len() && declares(#[trigger] d[k], name);
            assert(lines[k] == d[k]);
        }
        if exists|k: int| 0 <= k < lines.len() && declares(#[trigger] lines[k], name) {
            let k = choose|k: int| 0 <= k < lines.len() && declares(#[trigger] lines[k], name);
            if k < d.len() {
                assert(d[k] == lines[k]);
            }
        }
    }
}

/// A pod is direct exactly where a line of the `DEPENDENCIES` section declares it by its
/// whole name, slashes included: with nothing behind the name, or with a requirement in
/// brackets.
pub proof fn law_direct_pods_are_the_declared_ones(content: Seq<char>, i: int)
    requires
        0 <= i < podfile_entries(content).len(),
        is_pod_name(podfile_entries(content)[i].name),
    ensures
        ({
            let e = podfile_entries(content)[i];
            let lines = section(line_seq(content), "DEPENDENCIES"@);
            e.direct <==> exists|k: int| 0 <= k < lines.len() && declares(#[trigger] lines[k], e.name)
        }),
{
    let e = podfile_entries(content)[i];
    lemma_listed(section(line_seq(content), "DEPENDENCIES"@), e.name);
}

/// The lines that declare a pod: `  - Name` and `  - Name (requirement)`.
pub proof fn law_lines_that_declare(name: Seq<char>, req: Seq<char>)
    requires
        is_pod_name(name),
    ensures
        declares("  - "@ + name, name),
        declares("  - "@ + name + " ("@ + req + ")"@, name),
{
    reveal_strlit(" (");
    let e = Seq::<char>::empty();
    assert("  - "@ + name =~= "  - "@ + (e + name + e + e));
    let rest = seq!['('] + req + ")"@;
    assert("  - "@ + name + " ("@ + req + ")"@ =~= "  - "@ + (e + name + seq![' '] + rest));
}

/// `  - Name (Version)` under `PODS`, with or without a colon, declares a pod of that name
/// and version, and the lines `    - Child` below it the pods that it depends on.
pub proof fn law_pods_are_read_as_written(
    lines: Seq<Seq<char>>,
    name: Seq<char>,
    version: Seq<char>,
    child: Seq<char>,
    req: Seq<char>,
)
    requires
        is_pod_name(name),
        is_pod_version(version),
        is_pod_name(child),
    ensures
        declared(lines.push("  - "@ + name + " ("@ + version + ")"@)) == declared(lines).push(
            Pod { name, version: Some(version), children: Seq::empty() },
        ),
        declared(lines.push("  - "@ + name + " ("@ + version + "):"@)) == declared(lines).push(
            Pod { name, version: Some(version), children: Seq::empty() },
        ),
        declared(lines).len() > 0 ==> {
            let last = declared(lines).last();
            let grown = declared(lines).drop_last().push(
                Pod {
                    name: last.name,
                    version: last.version,
                    children: last.children.push(child),
                },
            );
            &&& declared(lines.push("    - "@ + child)) == grown
            &&& declared(lines.push("    - "@ + child + " ("@ + req + ")"@)) == grown
        },
{
    reveal_strlit("  - ");
    reveal_strlit("    - ");
    reveal_strlit(" (");
    reveal_strlit(")");
    reveal_strlit("):");
    reveal_strlit(":");
    let e = Seq::<char>::empty();
    let body = name + " ("@ + version + ")"@;
    let a = "  - "@ + name + " ("@ + version + ")"@;
    let b = "  - "@ + name + " ("@ + version + "):"@;
    assert(a =~= "  - "@ + body);
    assert(b =~= "  - "@ + body.push(':'));
    lemma_pod_line(a, body, name, version);
    lemma_pod_line(b, body, name, version);
    assert(lines.push(a).drop_last() =~= lines);
    assert(lines.push(b).drop_last() =~= lines);
    let c = "    - "@ + child;
    let d = "    - "@ + child + " ("@ + req + ")"@;
    let rest = seq!['('] + req + ")"@;
    assert(c =~= "    - "@ + (e + child + e + e));
    assert(d =~= "    - "@ + (e + child + seq![' '] + rest));
    lemma_child_line(c, e, child, e, e);
    lemma_child_line(d, e, child, seq![' '], rest);
    assert(lines.push(c).drop_last() =~= lines);
    assert(lines.push(d).drop_last() =~= lines);
    let r = declared(lines);
    if r.len() > 0 {
        let p = Pod {
            name: r.last().name,
            version: r.last().version,
            children: r.last().children.push(child),
        };
        assert(r.update(r.len() - 1, p) =~= r.drop_last().push(p));
    }
}

proof fn lemma_child_line(
    line: Seq<char>,
    w: Seq<char>,
    child: Seq<char>,
    v: Seq<char>,
    rest: Seq<char>,
)
    requires
        is_pod_name(child),
        all_white(w),
        all_white(v),
        rest.len() == 0 || rest[0] == '(',
        line == "    - "@ + (w + child + v + rest),
    ensures
        is_child_line(line),
        bare_reference(line.skip(6)) == child,
{
    reveal_strlit("    - ");
    lemma_bare(w, child, v, rest);
    law_prefixes_and_suffixes("    - "@, w + child + v + rest);
    assert(line.skip(6) =~= w + child + v + rest);
    assert(line[4] == '-');
    lemma_not_blank(line, 4);
}

proof fn lemma_pod_line(
    line: Seq<char>,
    body: Seq<char>,
    name: Seq<char>,
    version: Seq<char>,
)
    requires
        is_pod_name(name),
        is_pod_version(version),
        body == name + " ("@ + version + ")"@,
        line == "  - "@ + body || line == "  - "@ + body.push(':'),
    ensures
        is_pod_line(line),
        name_and_version(pod_body(line)) == (name, Some(version)),
{
    reveal_strlit("  - ");
    reveal_strlit("    - ");
    reveal_strlit(" (");
    reveal_strlit(")");
    reveal_strlit(":");
    let e = Seq::<char>::empty();
    assert(line.take(4) =~= "  - "@);
    assert(line[2] == '-');
    lemma_not_blank(line, 2);
    assert(has_prefix(line, "    - "@) ==> line.take(6)[2] == ' ');
    let rest = line.skip(4);
    assert(rest =~= body || rest =~= body.push(':'));
    assert(body.last() == ')');
    if has_suffix(rest, ":"@) {
        assert(rest.skip(rest.len() - 1)[0] == ':');
        assert(rest.last() == ':');
        assert(rest.drop_last() =~= body);
    } else {
        if rest == body.push(':') {
            assert(rest.skip(rest.len() - 1) =~= ":"@);
        }
    }
    assert(pod_body(line) =~= body);
    let head = name + seq![' '];
    let tail = version + seq![')'];
    assert(body =~= head + seq!['('] + tail);
    assert(!head.contains('(')) by {
        if head.contains('(') {
            let k = choose|k: int| 0 <= k < head.len() && head[k] == '(';
            if k < name.len() {
                assert(head[k] == name[k]);
                assert(name.contains(name[k]));
            }
        }
    }
    law_before_the_first(head, '(', tail);
    assert(body.skip(head.len() as int + 1) =~= tail);
    assert(tail =~= version + seq![')'] + e);
    law_before_the_first(version, ')', e);
    law_trimming_takes_the_ends(e, name, seq![' ']);
    assert(e + name + seq![' '] =~= head);
    law_trimming_takes_the_ends(e, version, e);
}

proof fn lemma_edges_contain(children: Seq<Seq<char>>, name: Seq<char>, owner: Seq<char>)
    ensures
        edges(children, name, owner).len() > 0 <==> children.contains(name),
        forall|k: int|
            0 <= k < edges(children, name, owner).len() ==> #[trigger] edges(children, name, owner)[k]
                == owner,
    decreases children.len(),
{
    if children.len() > 0 {
        let d = children.drop_last();
        lemma_edges_contain(d, name, owner);
        assert(children[children.len() - 1] == children.last());
        if d.contains(name) {
            let k = choose|k: int| 0 <= k < d.len() && d[k] == name;
            assert(children[k] == name);
        }
        if children.contains(name) && children.last() != name {
            let k = choose|k: int| 0 <= k < children.len() && children[k] == name;
            assert(d[k] == name);
        }
    }
}

proof fn lemma_parent_of(owners: Seq<Pod>, pods: Seq<Pod>, name: Seq<char>, id: Seq<char>)
    ensures
        parents_of(owners, pods, name).contains(id) <==> exists|k: int|
            0 <= k < owners.len() && id == dep_id("library"@, Seq::empty(), (#[trigger] owners[k]).name)
                && governing(pods, owners[k].name)->0.children.contains(name),
    decreases owners.len(),
{
    if owners.len() > 0 {
        let d = owners.drop_last();
        lemma_parent_of(d, pods, name, id);
        let o = owners.last().name;
        let own = dep_id("library"@, Seq::empty(), o);
        let es = edges(governing(pods, o)->0.children, name, own);
        lemma_edges_contain(governing(pods, o)->0.children, name, own);
        let r = parents_of(d, pods, name);
        let out = parents_of(owners, pods, name);
        assert(out == r + es);
        if r.contains(id) {
            let k = choose|k: int| 0 <= k < r.len() && r[k] == id;
            assert(out[k] == id);
            let q = choose|k: int|
                0 <= k < d.len() && id == dep_id("library"@, Seq::empty(), (#[trigger] d[k]).name)
                    && governing(pods, d[k].name)->0.children.contains(name);
            assert(owners[q] == d[q]);
        }
        if es.len() > 0 {
            assert(out[r.len() as int] == es[0]);
        }
        assert(owners[owners.len() - 1] == owners.last());
        if out.contains(id) && !r.contains(id) {
            let k = choose|k: int| 0 <= k < out.len() && out[k] == id;
            if k < r.len() {
                assert(r[k] == id);
            } else {
                assert(out[k] == es[k - r.len()]);
            }
        }
        if exists|k: int|
            0 <= k < owners.len() && id == dep_id(
                "library"@,
                Seq::empty(),
                (#[trigger] owners[k]).name,
            ) && governing(pods, owners[k].name)->0.children.contains(name) {
            let k = choose|k: int|
                0 <= k < owners.len() && id == dep_id(
                    "library"@,
                    Seq::empty(),
                    (#[trigger] owners[k]).name,
                ) && governing(pods, owners[k].name)->0.children.contains(name);
            if k < d.len() {
                assert(d[k] == owners[k]);
            }
        }
    }
}

/// The parents of a pod are the pods that list it below them, and no others; it has the
/// version of its own line, and stands under its own name.
pub proof fn law_pods_know_their_parents(content: Seq<char>, i: int, parent: Seq<char>)
    requires
        0 <= i < podfile_entries(content).len(),
    ensures
        ({
            let pods = declared(section(line_seq(content), "PODS"@));
            let e = podfile_entries(content)[i];
            &&& podfile_entries(content).len() == pods.len()
            &&& e.name == pods[i].name
            &&& e.id == "library::"@ + e.name
            &&& e.type_ == "library"@
            &&& e.group.len() == 0
            &&& e.url is None
            &&& e.scope is None
            &&& (forall|j: int| i < j < pods.len() ==> (#[trigger] pods[j]).name != e.name)
                ==> e.version == pods[i].version
            &&& e.parents.contains(parent) <==> exists|k: int|
                0 <= k < pods.len() && parent == "library::"@ + (#[trigger] pods[k]).name
                    && governing(pods, pods[k].name)->0.children.contains(e.name)
        }),
{
    let pods = declared(section(line_seq(content), "PODS"@));
    let e = podfile_entries(content)[i];
    lemma_parent_of(pods, pods, e.name, parent);
    assert forall|n: Seq<char>| #[trigger] dep_id("library"@, Seq::empty(), n) == "library::"@ + n by {
        law_ids_of_libraries(n);
    }
    if forall|j: int| i < j < pods.len() ==> (#[trigger] pods[j]).name != e.name {
        law_last_declaration_governs(pods, i);
    }
}

/// Of several declarations of a name the last one counts.
pub proof fn law_last_declaration_governs(pods: Seq<Pod>, i: int)
    requires
        0 <= i < pods.len(),
        forall|j: int| i < j < pods.len() ==> (#[trigger] pods[j]).name != pods[i].name,
    ensures
        governing(pods, pods[i].name) == Some(pods[i]),
    decreases pods.len(),
{
    if i < pods.len() - 1 {
        let d = pods.drop_last();
        assert(pods[pods.len() - 1].name != pods[i].name);
        assert(d[i] == pods[i]);
        assert forall|j: int| i < j < d.len() implies (#[trigger] d[j]).name != d[i].name by {
            assert(d[j] == pods[j]);
        }
        law_last_declaration_governs(d, i);
    }
}

} // verus!
