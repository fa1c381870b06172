//! Stamping JavaScript bundles and their source maps with debug ids.
//!
//! A bundle gets an id out of its own bytes and those of its map, in a comment
//! and in a stub that registers the id at run time. The map gets the same id.
use vstd::bytes::{
    lemma_auto_spec_u64_to_from_le_bytes, spec_u64_from_le_bytes, spec_u64_to_le_bytes,
    u64_to_le_bytes,
};
use crate::error::{Error, Failure, failure, input_invalid};
use crate::ids::{
    Uuid, hyphenated_text, is_hex_digit, law_hyphenated_shape, new_v5, parse_uuid, uuid_parsed,
    uuid_v5,
};
use crate::json::{JsonAt, JsonShape, json_at, look_up, text_at, text_of};
use crate::paths::{
    Part, PathPart, body_parts, extension_of, goes_down, has_extension, has_path, is_rooted,
    join_path, joined_path, law_going_down_stays_inside, normalized, parent, parent_path,
    parse_path, part_views, path_parts, paths_of,
};
use crate::text::{
    cat2, cat5, contains_str, from_range, has_prefix, is_line, is_white, law_lines_come_back,
    law_trimming_takes_the_ends, lemma_pieces_nonempty, line_seq, lines, occurs, occurs_at,
    occurs_last_at, opt_str, pieces, rfind, starts_with, str_eq, strs, text_of_lines, to_chars,
    trim, trim_start, trimmed, trimmed_start, without_cr,
};
use vstd::prelude::*;
use vstd::string::*;
use vstd::utf8::encode_utf8;

verus! {

/// The comment that carries the id of a bundle begins so.
pub const DEBUG_ID_COMMENT_PREFIX: &'static str = "//# debugId=";

/// The comment that names the map of a bundle begins so.
pub const SOURCE_MAPPING_URL_PREFIX: &'static str = "//# sourceMappingURL=";

/// The stub up to the id.
pub const STUB_HEAD: &'static str =
    "\n;!function(){try{var e=\"undefined\"!=typeof window?window:\"undefined\"!=typeof global?global:\"undefined\"!=typeof globalThis?globalThis:\"undefined\"!=typeof self?self:{},n=(new e.Error).stack;n&&(e._bugseeDebugIds=e._bugseeDebugIds||{},e._bugseeDebugIds[n]=\"";

/// The stub behind the id.
pub const STUB_TAIL: &'static str = "\")}catch(e){}}();\n";

/// The namespace of the ids of source maps.
pub open spec fn debug_id_namespace() -> Seq<u8> {
    seq![176, 149, 238, 94, 83, 0, 77, 169, 138, 5, 4, 222, 176, 106, 144, 1]
}

fn namespace() -> (r: [u8; 16])
    ensures
        r@ == debug_id_namespace(),
{
    let r = [176u8, 149, 238, 94, 83, 0, 77, 169, 138, 5, 4, 222, 176, 106, 144, 1];
    proof {
        assert(r@ =~= debug_id_namespace());
    }
    r
}

/// The bytes that the id of a bundle with a map is made of: the length of the
/// bundle in eight bytes, the bundle, the map.
pub open spec fn id_input(bundle: Seq<u8>, map: Option<Seq<u8>>) -> Seq<u8> {
    match map {
        Some(m) => spec_u64_to_le_bytes(bundle.len() as u64) + bundle + m,
        None => bundle,
    }
}

/// The id of a bundle with the map it has.
pub open spec fn debug_id(bundle: Seq<u8>, map: Option<Seq<u8>>) -> Seq<u8> {
    uuid_v5(debug_id_namespace(), id_input(bundle, map))
}

/// The id of some bytes alone.
pub fn compute_debug_id(content: &[u8]) -> (r: Uuid)
    ensures
        r.bytes@ == debug_id(content@, None),
{
    Uuid { bytes: new_v5(&namespace(), content) }
}

fn append_bytes(out: &mut Vec<u8>, more: &[u8])
    ensures
        final(out)@ == old(out)@ + more@,
{
    let ghost base = out@;
    let mut i: usize = 0;
    proof {
        assert(base + more@.take(0) =~= base);
    }
    while i < more.len()
        invariant
            i <= more@.len(),
            out@ == base + more@.take(i as int),
        decreases more@.len() - i,
    {
        out.push(more[i]);
        proof {
            assert(more@.take(i + 1) =~= more@.take(i as int).push(more@[i as int]));
            assert(out@ =~= base + more@.take(i + 1));
        }
        i += 1;
    }
    proof {
        assert(more@.take(i as int) =~= more@);
    }
}

pub open spec fn opt_bytes(o: Option<&[u8]>) -> Option<Seq<u8>> {
    match o {
        Some(b) => Some(b@),
        None => None,
    }
}

/// The id of a bundle with the map it has.
pub fn compute_debug_id_with_map(bundle: &[u8], map: Option<&[u8]>) -> (r: Uuid)
    ensures
        r.bytes@ == debug_id(bundle@, opt_bytes(map)),
{
    match map {
        None => compute_debug_id(bundle),
        Some(m) => {
            let mut input = u64_to_le_bytes(bundle.len() as u64);
            append_bytes(&mut input, bundle);
            append_bytes(&mut input, m);
            Uuid { bytes: new_v5(&namespace(), input.as_slice()) }
        },
    }
}

/// Different bundles or maps are told apart: no byte can move from one to the
/// other without changing what the id is made of.
pub proof fn law_id_input_is_injective(
    a: Seq<u8>,
    m: Option<Seq<u8>>,
    b: Seq<u8>,
    n: Option<Seq<u8>>,
)
    requires
        a.len() <= u64::MAX,
        b.len() <= u64::MAX,
        m is Some == n is Some,
        id_input(a, m) == id_input(b, n),
    ensures
        a == b,
        m == n,
{
    if m is Some {
        lemma_auto_spec_u64_to_from_le_bytes();
        let x = id_input(a, m);
        let la = spec_u64_to_le_bytes(a.len() as u64);
        let lb = spec_u64_to_le_bytes(b.len() as u64);
        assert(la.len() == 8 && lb.len() == 8);
        assert(x.take(8) =~= la);
        assert(x.take(8) =~= lb);
        assert(spec_u64_from_le_bytes(la) == a.len() as u64);
        assert(spec_u64_from_le_bytes(lb) == b.len() as u64);
        assert(a.len() == b.len());
        assert(x.subrange(8, 8 + a.len() as int) =~= a);
        assert(x.subrange(8, 8 + a.len() as int) =~= b);
        assert(x.skip(8 + a.len() as int) =~= m->0);
        assert(x.skip(8 + a.len() as int) =~= n->0);
    }
}

/// What registers an id when a bundle is loaded.
pub open spec fn registration_text(id: Seq<char>) -> Seq<char> {
    STUB_HEAD@ + id + STUB_TAIL@
}

fn registration(id: &str) -> (r: String)
    ensures
        r@ == registration_text(id@),
{
    let head = cat2(STUB_HEAD, id);
    cat2(head.as_str(), STUB_TAIL)
}

/// What is appended to a bundle for an id: the registration, and the comment.
pub open spec fn stub_text(id: Seq<char>) -> Seq<char> {
    registration_text(id) + DEBUG_ID_COMMENT_PREFIX@ + id + "\n"@
}

/// What is appended to a bundle for an id.
pub fn runtime_stub(id: &str) -> (r: String)
    ensures
        r@ == stub_text(id@),
{
    let head = cat5(STUB_HEAD, id, STUB_TAIL, DEBUG_ID_COMMENT_PREFIX, id);
    cat2(head.as_str(), "\n")
}

/// What follows the last `prefix` in a text.
pub open spec fn after_last(s: Seq<char>, prefix: Seq<char>) -> Option<Seq<char>> {
    if exists|i: int| #[trigger] occurs_last_at(s, prefix, i) {
        let i = choose|i: int| #[trigger] occurs_last_at(s, prefix, i);
        Some(s.skip(i + prefix.len()))
    } else {
        None
    }
}

fn find_after_last(s: &str, prefix: &str) -> (r: Option<String>)
    ensures
        opt_str(r) == after_last(s@, prefix@),
{
    match rfind(s, prefix) {
        Some(i) => {
            let v = to_chars(s);
            let p = to_chars(prefix);
            let n: usize = v.len();
            proof {
                assert(occurs_at(s@, prefix@, i as int));
                assert(i + p@.len() <= n);
                assert(occurs_last_at(s@, prefix@, i as int));
                let k = choose|k: int| #[trigger] occurs_last_at(s@, prefix@, k);
                assert(k == i);
                assert(v@.subrange(i + p@.len(), v@.len() as int) =~= s@.skip(i + prefix@.len()));
            }
            Some(from_range(&v, i + p.len(), n))
        },
        None => {
            proof {
                assert forall|i: int| !#[trigger] occurs_last_at(s@, prefix@, i) by {
                    assert(!occurs_at(s@, prefix@, i));
                }
            }
            None
        },
    }
}

/// The part of a comment that an id would be read from.
pub open spec fn id_token(rest: Seq<char>) -> Seq<char> {
    let t = trimmed_start(rest);
    trimmed(
        if t.len() <= 36 {
            t
        } else {
            t.take(36)
        },
    )
}

/// The id that a bundle carries in its last comment, in the common form.
pub open spec fn carried_id(content: Seq<char>) -> Option<Seq<char>> {
    match after_last(content, DEBUG_ID_COMMENT_PREFIX@) {
        Some(rest) => match uuid_parsed(id_token(rest)) {
            Ok(b) => Some(hyphenated_text(b)),
            Err(_) => None,
        },
        None => None,
    }
}

/// The text that the id of a bundle is read from, where it has such a comment.
pub fn debug_id_token(content: &str) -> (r: Option<String>)
    ensures
        opt_str(r) == match after_last(content@, DEBUG_ID_COMMENT_PREFIX@) {
            Some(rest) => Some(id_token(rest)),
            None => None,
        },
{
    match find_after_last(content, DEBUG_ID_COMMENT_PREFIX) {
        Some(rest) => {
            let t = trim_start(rest.as_str());
            let v = to_chars(t.as_str());
            let n: usize = if v.len() <= 36 {
                v.len()
            } else {
                36
            };
            let token = from_range(&v, 0, n);
            proof {
                assert(v@.subrange(0, v@.len() as int) =~= v@);
                assert(v@.len() > 36 ==> v@.subrange(0, 36) =~= v@.take(36));
            }
            Some(trim(token.as_str()))
        },
        None => None,
    }
}

/// An id in the common form, which is read as the id that it was written for.
pub open spec fn is_written_id(text: Seq<char>) -> bool {
    &&& uuid_parsed(text) is Ok
    &&& uuid_parsed(text)->Ok_0.len() == 16
    &&& hyphenated_text(uuid_parsed(text)->Ok_0) == text
}

/// The id that a bundle carries.
pub fn existing_debug_id(content: &str) -> (r: Option<String>)
    ensures
        opt_str(r) == carried_id(content@),
        r is Some ==> is_written_id(r->0@),
{
    match debug_id_token(content) {
        Some(token) => match parse_uuid(token.as_str()) {
            Ok(u) => Some(u.hyphenated()),
            Err(_) => None,
        },
        None => None,
    }
}

proof fn lemma_trim_keeps(s: Seq<char>)
    requires
        s.len() > 0,
        !is_white(s[0]),
        !is_white(s.last()),
    ensures
        trimmed_start(s) == s,
        trimmed(s) == s,
{
}

/// A comment prefix that no slash follows is the last of its kind.
proof fn lemma_last_prefix(head: Seq<char>, p: Seq<char>, tail: Seq<char>)
    requires
        p.len() > 2,
        p[0] == '/',
        p[1] == '/',
        forall|k: int| 2 <= k < p.len() ==> #[trigger] p[k] != '/',
        forall|k: int| 0 <= k < tail.len() ==> #[trigger] tail[k] != '/',
    ensures
        after_last(head + p + tail, p) == Some(tail),
{
    let whole = head + p + tail;
    let i0 = head.len() as int;
    assert(whole.subrange(i0, i0 + p.len()) =~= p);
    assert(occurs_at(whole, p, i0));
    assert forall|j: int| i0 < j implies !#[trigger] occurs_at(whole, p, j) by {
        if occurs_at(whole, p, j) {
            let sub = whole.subrange(j, j + p.len());
            assert(sub[0] == whole[j]);
            assert(sub[1] == whole[j + 1]);
            if j < i0 + p.len() {
                assert(whole[j] == p[j - i0]);
                if j + 1 < i0 + p.len() {
                    assert(whole[j + 1] == p[j + 1 - i0]);
                } else {
                    assert(whole[j + 1] == tail[j + 1 - i0 - p.len()]);
                }
            } else {
                assert(whole[j] == tail[j - i0 - p.len()]);
            }
        }
    }
    assert(occurs_last_at(whole, p, i0));
    let i = choose|i: int| #[trigger] occurs_last_at(whole, p, i);
    assert(i == i0);
    assert(whole.skip(i0 + p.len()) =~= tail);
}

proof fn lemma_id_token(text: Seq<char>, id: Seq<u8>)
    requires
        id.len() == 16,
        text == hyphenated_text(id),
    ensures
        id_token(text + "\n"@) == text,
        forall|k: int| 0 <= k < text.len() ==> #[trigger] text[k] != '/',
{
    reveal_strlit("\n");
    law_hyphenated_shape(id);
    let rest = text + "\n"@;
    assert(rest[0] == text[0]);
    assert(is_hex_digit(text[0]));
    assert(trimmed_start(rest) == rest);
    assert(rest.take(36) =~= text);
    assert(is_hex_digit(text[35]));
    assert(text.last() == text[35]);
    lemma_trim_keeps(text);
    assert forall|k: int| 0 <= k < text.len() implies #[trigger] text[k] != '/' by {
        assert(text[k] == '-' || is_hex_digit(text[k]));
    }
}

/// A bundle that was stamped carries the id that it was stamped with: stamping it
/// again finds it there.
pub proof fn law_stamped_id_is_carried(content: Seq<char>, id: Seq<u8>)
    requires
        id.len() == 16,
        uuid_parsed(hyphenated_text(id)) is Ok && uuid_parsed(hyphenated_text(id))->Ok_0 == id,
    ensures
        carried_id(content + stub_text(hyphenated_text(id))) == Some(hyphenated_text(id)),
{
    let text = hyphenated_text(id);
    let p = DEBUG_ID_COMMENT_PREFIX@;
    let head = content + STUB_HEAD@ + text + STUB_TAIL@;
    let tail = text + "\n"@;
    lemma_id_token(text, id);
    assert forall|k: int| 0 <= k < tail.len() implies #[trigger] tail[k] != '/' by {
        reveal_strlit("\n");
        if k < text.len() {
            assert(tail[k] == text[k]);
        } else {
            assert(tail[k] == "\n"@[k - text.len()]);
        }
    }
    assert(p.len() == 12 && p[0] == '/' && p[1] == '/' && forall|k: int|
        2 <= k < p.len() ==> #[trigger] p[k] != '/') by {
        reveal_strlit("//# debugId=");
    }
    lemma_last_prefix(head, p, tail);
    assert(content + stub_text(text) =~= head + p + tail);
}

/// The stub begins with a line end and names no map.
proof fn lemma_stub_names_no_map(id: Seq<char>, j: int)
    requires
        forall|k: int| 0 <= k < id.len() ==> #[trigger] id[k] != '/',
    ensures
        stub_text(id).len() > 0,
        stub_text(id)[0] == '\n',
        !occurs_at(stub_text(id), SOURCE_MAPPING_URL_PREFIX@, j),
{
    reveal_strlit(
        "\n;!function(){try{var e=\"undefined\"!=typeof window?window:\"undefined\"!=typeof global?global:\"undefined\"!=typeof globalThis?globalThis:\"undefined\"!=typeof self?self:{},n=(new e.Error).stack;n&&(e._bugseeDebugIds=e._bugseeDebugIds||{},e._bugseeDebugIds[n]=\"",
    );
    reveal_strlit("\")}catch(e){}}();\n");
    reveal_strlit("//# debugId=");
    reveal_strlit("//# sourceMappingURL=");
    reveal_strlit("\n");
    let t = stub_text(id);
    let p = SOURCE_MAPPING_URL_PREFIX@;
    let (h, n, l) = (STUB_HEAD@.len() as int, id.len() as int, STUB_TAIL@.len() as int);
    let c = h + n + l;
    assert(t[0] == STUB_HEAD@[0]);
    if occurs_at(t, p, j) {
        assert(p[0] == '/' && p[1] == '/' && p[4] == 's');
        let found = t.subrange(j, j + p.len());
        assert(found[0] == t[j] && found[1] == t[j + 1] && found[4] == t[j + 4]);
        assert(t[j] == '/' && t[j + 1] == '/' && t[j + 4] == 's');
        if j < h {
            assert(t[j] == STUB_HEAD@[j]);
        } else if j < h + n {
            assert(t[j] == id[j - h]);
        } else if j < c {
            assert(t[j] == STUB_TAIL@[j - h - n]);
        } else if j < c + 12 {
            assert(t[j] == DEBUG_ID_COMMENT_PREFIX@[j - c]);
            if j + 1 < c + 12 {
                assert(t[j + 1] == DEBUG_ID_COMMENT_PREFIX@[j + 1 - c]);
            }
            assert(j == c);
            assert(t[j + 4] == DEBUG_ID_COMMENT_PREFIX@[4]);
        } else if j < c + 12 + n {
            assert(t[j] == id[j - c - 12]);
        } else {
            assert(t[j] == "\n"@[j - c - 12 - n]);
        }
    }
}

/// What is appended behind a line end, and has no `p` in it, leaves the last `p` where it
/// was.
proof fn lemma_last_stays(s: Seq<char>, t: Seq<char>, p: Seq<char>)
    requires
        p.len() > 0,
        !p.contains('\n'),
        t.len() > 0,
        t[0] == '\n',
        forall|j: int| !#[trigger] occurs_at(t, p, j),
    ensures
        after_last(s + t, p) == match after_last(s, p) {
            Some(rest) => Some(rest + t),
            None => None,
        },
{
    let w = s + t;
    assert forall|i: int| #[trigger] occurs_at(w, p, i) <==> occurs_at(s, p, i) by {
        if occurs_at(s, p, i) {
            assert(w.subrange(i, i + p.len()) =~= s.subrange(i, i + p.len()));
        }
        if occurs_at(w, p, i) {
            if i >= s.len() {
                let j = i - s.len();
                assert(t.subrange(j, j + p.len()) =~= w.subrange(i, i + p.len()));
                assert(occurs_at(t, p, j));
            } else if i + p.len() > s.len() {
                let k = s.len() - i;
                assert(w.subrange(i, i + p.len())[k] == w[s.len() as int]);
                assert(p[k] == '\n');
            } else {
                assert(s.subrange(i, i + p.len()) =~= w.subrange(i, i + p.len()));
            }
        }
    }
    assert forall|i: int| #[trigger] occurs_last_at(w, p, i) <==> occurs_last_at(s, p, i) by {
        assert(occurs_at(w, p, i) <==> occurs_at(s, p, i));
        if occurs_last_at(w, p, i) {
            assert forall|j: int| i < j implies !#[trigger] occurs_at(s, p, j) by {
                assert(!occurs_at(w, p, j));
            }
        }
        if occurs_last_at(s, p, i) {
            assert forall|j: int| i < j implies !#[trigger] occurs_at(w, p, j) by {
                assert(!occurs_at(s, p, j));
            }
        }
    }
    if exists|i: int| #[trigger] occurs_last_at(s, p, i) {
        let i = choose|i: int| #[trigger] occurs_last_at(s, p, i);
        assert(occurs_last_at(w, p, i));
        let k = choose|k: int| #[trigger] occurs_last_at(w, p, k);
        assert(occurs_last_at(s, p, k));
        assert(i == k) by {
            if i < k {
                assert(!occurs_at(s, p, k));
            } else if k < i {
                assert(!occurs_at(s, p, i));
            }
        }
        assert(w.skip(i + p.len()) =~= s.skip(i + p.len()) + t);
    } else if exists|i: int| #[trigger] occurs_last_at(w, p, i) {
        let i = choose|i: int| #[trigger] occurs_last_at(w, p, i);
        assert(occurs_last_at(s, p, i));
    }
}

/// A line end and what follows it do not change the first piece.
proof fn lemma_first_piece_stays(s: Seq<char>, u: Seq<char>)
    ensures
        pieces(s + seq!['\n'] + u, seq!['\n']).len() >= 2,
        pieces(s + seq!['\n'] + u, seq!['\n'])[0] == pieces(s, seq!['\n'])[0],
    decreases u.len(),
{
    let w = s + seq!['\n'] + u;
    lemma_pieces_nonempty(s, seq!['\n']);
    assert(seq!['\n'].contains('\n')) by {
        assert(seq!['\n'][0] == '\n');
    }
    if u.len() == 0 {
        assert(w.drop_last() =~= s);
        assert(w.last() == '\n');
    } else {
        lemma_first_piece_stays(s, u.drop_last());
        assert(w.drop_last() =~= s + seq!['\n'] + u.drop_last());
    }
}

proof fn lemma_trim_without_cr(s: Seq<char>)
    ensures
        trimmed(without_cr(s)) == trimmed(s),
    decreases s.len(),
{
    if s.len() > 0 && s.last() == '\r' {
        let d = s.drop_last();
        if d.len() == 0 {
            assert(s.skip(1) =~= d);
        } else if is_white(s[0]) {
            lemma_trim_without_cr(s.skip(1));
            assert(s.skip(1).drop_last() =~= d.skip(1));
        } else {
            assert(trimmed_start(s) == s);
            assert(trimmed_start(d) == d);
        }
    }
}

/// The first line of a text, trimmed, is its first piece, trimmed.
proof fn lemma_first_line(s: Seq<char>)
    ensures
        (if line_seq(s).len() > 0 {
            trimmed(line_seq(s)[0])
        } else {
            Seq::empty()
        }) == trimmed(pieces(s, seq!['\n'])[0]),
{
    let p = pieces(s, seq!['\n']);
    lemma_pieces_nonempty(s, seq!['\n']);
    lemma_trim_without_cr(p[0]);
    if p.len() == 1 && p.last().len() == 0 {
        assert(p[0] =~= Seq::empty());
    }
}

/// What begins with a line end and names no map can be appended without changing the map
/// that a bundle names.
proof fn lemma_named_map_stays(content: Seq<char>, t: Seq<char>)
    requires
        t.len() > 0,
        t[0] == '\n',
        forall|j: int| !#[trigger] occurs_at(t, SOURCE_MAPPING_URL_PREFIX@, j),
    ensures
        named_map(content + t) == named_map(content),
{
    reveal_strlit("//# sourceMappingURL=");
    let p = SOURCE_MAPPING_URL_PREFIX@;
    lemma_last_stays(content, t, p);
    match after_last(content, p) {
        Some(rest) => {
            let u = t.skip(1);
            assert(rest + t =~= rest + seq!['\n'] + u);
            lemma_first_piece_stays(rest, u);
            lemma_first_line(rest);
            lemma_first_line(rest + t);
        },
        None => {},
    }
}

/// A bundle that was stamped names the map that it named before, and so does one that only
/// gained a registration.
pub proof fn law_stamping_keeps_the_named_map(content: Seq<char>, id: Seq<u8>)
    requires
        id.len() == 16,
    ensures
        named_map(content + stub_text(hyphenated_text(id))) == named_map(content),
        named_map(content + registration_text(hyphenated_text(id))) == named_map(content),
{
    let text = hyphenated_text(id);
    let stub = stub_text(text);
    let reg = registration_text(text);
    let p = SOURCE_MAPPING_URL_PREFIX@;
    lemma_id_token(text, id);
    lemma_registration_has_no_slash(text);
    assert forall|j: int| !#[trigger] occurs_at(stub, p, j) by {
        lemma_stub_names_no_map(text, j);
    }
    lemma_stub_names_no_map(text, 0);
    assert(reg[0] == stub[0]);
    reveal_strlit("//# sourceMappingURL=");
    assert forall|j: int| !#[trigger] occurs_at(reg, p, j) by {
        lemma_absent(reg, p, j);
    }
    lemma_named_map_stays(content, stub);
    lemma_named_map_stays(content, reg);
}

proof fn lemma_absent(s: Seq<char>, p: Seq<char>, j: int)
    requires
        p.len() > 0,
        p[0] == '/',
        forall|k: int| 0 <= k < s.len() ==> #[trigger] s[k] != '/',
    ensures
        !occurs_at(s, p, j),
{
    if occurs_at(s, p, j) {
        assert(s.subrange(j, j + p.len())[0] == s[j]);
    }
}

proof fn lemma_registration_has_no_slash(id: Seq<char>)
    requires
        forall|k: int| 0 <= k < id.len() ==> #[trigger] id[k] != '/',
    ensures
        registration_text(id).len() > 0,
        registration_text(id)[0] == '\n',
        forall|k: int|
            0 <= k < registration_text(id).len() ==> #[trigger] registration_text(id)[k] != '/',
{
    reveal_strlit(
        "\n;!function(){try{var e=\"undefined\"!=typeof window?window:\"undefined\"!=typeof global?global:\"undefined\"!=typeof globalThis?globalThis:\"undefined\"!=typeof self?self:{},n=(new e.Error).stack;n&&(e._bugseeDebugIds=e._bugseeDebugIds||{},e._bugseeDebugIds[n]=\"",
    );
    reveal_strlit("\")}catch(e){}}();\n");
    let t = registration_text(id);
    let (h, n) = (STUB_HEAD@.len() as int, id.len() as int);
    assert(t[0] == STUB_HEAD@[0]);
    assert forall|k: int| 0 <= k < t.len() implies #[trigger] t[k] != '/' by {
        if k < h {
            assert(t[k] == STUB_HEAD@[k]);
        } else if k < h + n {
            assert(t[k] == id[k - h]);
        } else {
            assert(t[k] == STUB_TAIL@[k - h - n]);
        }
    }
}

proof fn lemma_trimmed_start_grows(s: Seq<char>, t: Seq<char>)
    requires
        trimmed_start(s).len() > 0,
    ensures
        trimmed_start(s + t) == trimmed_start(s) + t,
    decreases s.len(),
{
    if is_white(s[0]) {
        lemma_trimmed_start_grows(s.skip(1), t);
        assert((s + t).skip(1) =~= s.skip(1) + t);
    }
}

/// A bundle registers an id when it is loaded.
pub open spec fn is_registered(content: Seq<char>, id: Seq<char>) -> bool {
    occurs(content, registration_text(id))
}

/// A bundle that carries an id, with the registration of that id behind it. The comment is
/// written again only where it could not be read any longer: where an id of 32 digits was
/// the last thing in the bundle.
pub open spec fn with_registration(content: Seq<char>, id: Seq<char>) -> Seq<char> {
    let t = content + registration_text(id);
    if carried_id(t) == Some(id) {
        t
    } else {
        content + stub_text(id)
    }
}

/// Where 36 characters follow the comment of a bundle, as many as an id with hyphens has,
/// the bundle gains the registration and nothing else.
pub proof fn law_only_the_registration_is_gained(content: Seq<char>)
    requires
        carried_id(content) is Some,
        is_written_id(carried_id(content)->0),
        trimmed_start(after_last(content, DEBUG_ID_COMMENT_PREFIX@)->0).len() >= 36,
    ensures
        with_registration(content, carried_id(content)->0) == content + registration_text(
            carried_id(content)->0,
        ),
{
    let id = carried_id(content)->0;
    let t = registration_text(id);
    let p = DEBUG_ID_COMMENT_PREFIX@;
    let rest = after_last(content, p)->0;
    lemma_id_token(id, uuid_parsed(id)->Ok_0);
    lemma_registration_has_no_slash(id);
    reveal_strlit("//# debugId=");
    assert forall|j: int| !#[trigger] occurs_at(t, p, j) by {
        lemma_absent(t, p, j);
    }
    lemma_last_stays(content, t, p);
    lemma_trimmed_start_grows(rest, t);
    let a = trimmed_start(rest);
    assert((a + t).take(36) =~= a.take(36));
    assert(a.len() == 36 ==> a.take(36) =~= a);
}

/// What stamping does to a bundle.
#[derive(Debug, PartialEq, Eq)]
pub struct Stamping {
    /// The id of the bundle, in the common form.
    pub debug_id: String,
    /// Whether the bundle carried the id already.
    pub carried: bool,
    /// What the bundle becomes; nothing where it carries an id and registers it.
    pub stamped: Option<String>,
}

/// What stamping does to a bundle, given the bytes of its map where it has one. A bundle
/// that carries an id, whichever tool wrote it, keeps it, and gains the registration where
/// it has none for that id. A stamped bundle carries and registers its id, so that stamping
/// again changes nothing, and it names the map that it named before.
pub fn stamp_bundle(content: &str, map: Option<&[u8]>) -> (r: Stamping)
    ensures
        r.carried == (carried_id(content@) is Some),
        match carried_id(content@) {
            Some(id) => {
                &&& r.debug_id@ == id
                &&& r.stamped is None <==> is_registered(content@, id)
                &&& r.stamped is Some ==> r.stamped->0@ == with_registration(content@, id)
            },
            None => {
                let id = hyphenated_text(debug_id(encode_utf8(content@), opt_bytes(map)));
                &&& r.debug_id@ == id
                &&& r.stamped is Some
                &&& r.stamped->0@ == content@ + stub_text(id)
            },
        },
        r.stamped is Some ==> carried_id(r.stamped->0@) == Some(r.debug_id@),
        r.stamped is Some ==> is_registered(r.stamped->0@, r.debug_id@),
        r.stamped is Some ==> named_map(r.stamped->0@) == named_map(content@),
{
    match existing_debug_id(content) {
        Some(id) => {
            let reg = registration(id.as_str());
            if contains_str(content, reg.as_str()) {
                return Stamping { debug_id: id, carried: true, stamped: None };
            }
            proof {
                let b = uuid_parsed(id@)->Ok_0;
                law_stamped_id_is_carried(content@, b);
                law_stamping_keeps_the_named_map(content@, b);
                lemma_registered(content@, id@);
            }
            let short = cat2(content, reg.as_str());
            let kept = match existing_debug_id(short.as_str()) {
                Some(found) => str_eq(found.as_str(), id.as_str()),
                None => false,
            };
            let text = if kept {
                short
            } else {
                let stub = runtime_stub(id.as_str());
                cat2(content, stub.as_str())
            };
            Stamping { debug_id: id, carried: true, stamped: Some(text) }
        },
        None => {
            let u = compute_debug_id_with_map(content.as_bytes(), map);
            let id = u.hyphenated();
            let stub = runtime_stub(id.as_str());
            let text = cat2(content, stub.as_str());
            proof {
                law_stamped_id_is_carried(content@, u.bytes@);
                law_stamping_keeps_the_named_map(content@, u.bytes@);
                lemma_registered(content@, id@);
            }
            Stamping { debug_id: id, carried: false, stamped: Some(text) }
        },
    }
}

proof fn lemma_registered(content: Seq<char>, id: Seq<char>)
    ensures
        is_registered(content + registration_text(id), id),
        is_registered(content + stub_text(id), id),
{
    let reg = registration_text(id);
    let n = content.len() as int;
    let short = content + reg;
    let long = content + stub_text(id);
    assert(short.subrange(n, n + reg.len()) =~= reg);
    assert(long.subrange(n, n + reg.len()) =~= reg);
    assert(occurs_at(short, reg, n));
    assert(occurs_at(long, reg, n));
}

/// A relative path that cannot lead out of its directory.
pub open spec fn is_contained(url: Seq<char>) -> bool {
    goes_down(path_parts(url))
}

/// Whether a relative path cannot lead out of its directory: it is not absolute
/// and has no `..`.
pub fn is_contained_relative(url: &str) -> (r: bool)
    ensures
        r == is_contained(url@),
{
    let parts = parse_path(url);
    let ghost all = part_views(parts@);
    let mut i: usize = 0;
    while i < parts.len()
        invariant
            i <= parts@.len(),
            all == part_views(parts@),
            all == path_parts(url@),
            forall|k: int| 0 <= k < i ==> ((#[trigger] all[k]) is Name || all[k] is Current),
        decreases parts@.len() - i,
    {
        proof {
            assert(all[i as int] == parts@[i as int]@);
        }
        match &parts[i] {
            Part::Name(_) => {},
            Part::Current => {},
            _ => {
                return false;
            },
        }
        i += 1;
    }
    true
}

/// The map that a bundle names: what follows its last comment, up to the end of
/// the line.
pub open spec fn named_map(content: Seq<char>) -> Option<Seq<char>> {
    match after_last(content, SOURCE_MAPPING_URL_PREFIX@) {
        Some(rest) => {
            let ls = line_seq(rest);
            Some(
                if ls.len() > 0 {
                    trimmed(ls[0])
                } else {
                    Seq::empty()
                },
            )
        },
        None => None,
    }
}

/// The directory of a bundle.
pub open spec fn bundle_dir(js_path: Seq<char>) -> Seq<PathPart> {
    match parent_path(path_parts(js_path)) {
        Some(d) => d,
        None => seq![PathPart::Current],
    }
}

/// A name for a map that is followed: relative, not inline, and inside the
/// bundle's directory.
pub open spec fn is_followed(url: Seq<char>) -> bool {
    url.len() > 0 && !has_prefix(url, "data:"@) && is_contained(url)
}

/// The map of a bundle: the one it names, where that is a file that may be
/// followed, or else the file beside it with `.map` behind its name.
pub open spec fn map_of(
    js_path: Seq<char>,
    content: Seq<char>,
    files: Seq<Seq<PathPart>>,
) -> Option<Seq<PathPart>> {
    let url = named_map(content);
    let sibling = path_parts(js_path + ".map"@);
    if url is Some && is_followed(url->0) && files.contains(
        joined_path(bundle_dir(js_path), url->0),
    ) {
        Some(joined_path(bundle_dir(js_path), url->0))
    } else if files.contains(sibling) {
        Some(sibling)
    } else {
        None
    }
}

/// The map of a bundle. `files` are the paths that are files.
pub fn paired_map(js_path: &str, content: &str, files: &Vec<Vec<Part>>) -> (r: Option<Vec<Part>>)
    ensures
        match r {
            Some(p) => map_of(js_path@, content@, paths_of(files@)) == Some(part_views(p@)),
            None => map_of(js_path@, content@, paths_of(files@)) is None,
        },
{
    match find_after_last(content, SOURCE_MAPPING_URL_PREFIX) {
        Some(rest) => {
            let ls = lines(rest.as_str());
            let url = if ls.len() > 0 {
                trim(ls[0].as_str())
            } else {
                String::new()
            };
            proof {
                if ls@.len() > 0 {
                    assert(strs(ls@)[0] == ls@[0]@);
                }
            }
            let u = url.as_str();
            if !u.is_empty() && !starts_with(u, "data:") && is_contained_relative(u) {
                let parts = parse_path(js_path);
                let dir = match parent(&parts) {
                    Some(d) => d,
                    None => {
                        let mut d: Vec<Part> = Vec::new();
                        d.push(Part::Current);
                        proof {
                            assert(part_views(d@) =~= seq![PathPart::Current]);
                        }
                        d
                    },
                };
                let candidate = join_path(&dir, u);
                if has_path(files, &candidate) {
                    return Some(candidate);
                }
            }
        },
        None => {},
    }
    let name = cat2(js_path, ".map");
    let sibling = parse_path(name.as_str());
    if has_path(files, &sibling) {
        Some(sibling)
    } else {
        None
    }
}

/// A map that a bundle names is taken from inside the bundle's directory, whatever
/// the bundle says.
pub proof fn law_maps_stay_beside_bundles(
    js_path: Seq<char>,
    content: Seq<char>,
    files: Seq<Seq<PathPart>>,
)
    requires
        bundle_dir(js_path).len() > 0,
        map_of(js_path, content, files) is Some,
        map_of(js_path, content, files) != Some(path_parts(js_path + ".map"@)),
    ensures
        ({
            let dir = normalized(bundle_dir(js_path));
            let m = normalized(map_of(js_path, content, files)->0);
            dir.len() <= m.len() && m.take(dir.len() as int) == dir
        }),
{
    let url = named_map(content)->0;
    let dir = bundle_dir(js_path);
    assert(!is_rooted(url)) by {
        if is_rooted(url) {
            assert(path_parts(url)[0] == PathPart::Root);
        }
    }
    let body = body_parts(pieces(url, seq!['/']), true);
    lemma_body_goes_down(pieces(url, seq!['/']));
    law_going_down_stays_inside(dir, body);
}

proof fn lemma_body_goes_down(ps: Seq<Seq<char>>)
    requires
        goes_down(body_parts(ps, false)),
    ensures
        goes_down(body_parts(ps, true)),
    decreases ps.len(),
{
    if ps.len() > 0 {
        let d = ps.drop_last();
        let r = body_parts(d, false);
        let s = body_parts(ps, false);
        assert(goes_down(r)) by {
            assert forall|i: int| 0 <= i < r.len() implies ((#[trigger] r[i]) is Name
                || r[i] is Current) by {
                assert(s[i] == r[i]);
            }
        }
        lemma_body_goes_down(d);
        let rt = body_parts(d, true);
        let st = body_parts(ps, true);
        if ps.last() == ".."@ && ps.last().len() > 0 && ps.last() != "."@ {
            assert(s[s.len() - 1] == PathPart::Up);
        }
        assert forall|i: int| 0 <= i < st.len() implies ((#[trigger] st[i]) is Name
            || st[i] is Current) by {
            if i < rt.len() {
                assert(st[i] == rt[i]);
            }
        }
    }
}

/// A file that is stamped: a script by its extension.
pub fn is_script(name: &str) -> (r: bool)
    ensures
        r == (extension_of(name@) == Some("js"@) || extension_of(name@) == Some("cjs"@)
            || extension_of(name@) == Some("mjs"@)),
{
    has_extension(name, "js") || has_extension(name, "cjs") || has_extension(name, "mjs")
}

/// What is said of a document that is no JSON.
pub uninterp spec fn json_error(doc: Seq<char>) -> Option<Seq<char>>;

/// Calls `serde_json::from_str` for its error. There is one exactly where nothing
/// can be found in the document; its text is only named.
#[verifier::external_body]
pub(crate) fn json_check(doc: &str) -> (r: Option<String>)
    ensures
        opt_str(r) == json_error(doc@),
        r is None <==> json_at(doc@, Seq::empty()) != JsonAt::Absent,
{
    serde_json::from_str::<serde_json::Value>(doc).err().map(|e| e.to_string())
}

/// The JSON object `doc` with the string `value` under two keys.
pub uninterp spec fn json_with(
    doc: Seq<char>,
    first: Seq<char>,
    second: Seq<char>,
    value: Seq<char>,
) -> Seq<char>;

/// A key that stands for itself in a JSON pointer.
pub open spec fn is_plain_key(k: Seq<char>) -> bool {
    !k.contains('/') && !k.contains('~')
}

/// Calls `serde_json::from_str`, `Map::insert` for each of the two keys and
/// `serde_json::to_string` on a JSON object. What is written is named [`json_with`]; it is
/// JSON again and an object, the value is found under both keys, and strings under other
/// keys are as they were.
#[verifier::external_body]
pub(crate) fn json_insert(doc: &str, first: &str, second: &str, value: &str) -> (r: String)
    requires
        json_at(doc@, Seq::empty()) == JsonAt::Object,
        is_plain_key(first@),
        is_plain_key(second@),
    ensures
        r@ == json_with(doc@, first@, second@, value@),
        json_error(r@) is None,
        json_at(r@, Seq::empty()) == JsonAt::Object,
        json_at(r@, seq!['/'] + first@) == JsonAt::Text(value@),
        json_at(r@, seq!['/'] + second@) == JsonAt::Text(value@),
        forall|k: Seq<char>|
            is_plain_key(k) && k != first@ && k != second@ ==> text_of(
                #[trigger] json_at(r@, seq!['/'] + k),
            ) == text_of(json_at(doc@, seq!['/'] + k)),
{
    let mut map: serde_json::Map<String, serde_json::Value> =
        serde_json::from_str(doc).expect("a JSON object");
    map.insert(first.to_string(), serde_json::Value::String(value.to_string()));
    map.insert(second.to_string(), serde_json::Value::String(value.to_string()));
    serde_json::to_string(&map).expect("a JSON object")
}

/// The id under a key of a map.
pub open spec fn map_text(doc: Seq<char>, key: Seq<char>) -> Option<Seq<char>> {
    text_of(json_at(doc, seq!['/'] + key))
}

/// Why a source map is refused, given what is said of a document that is no JSON and
/// what stands at its top.
pub open spec fn refusal(error: Option<Seq<char>>, top: JsonAt, path: Seq<char>) -> Option<Failure> {
    match error {
        Some(e) => Some(
            Failure::InputInvalid("sourcemap is not valid JSON: "@ + e + " ("@ + path + ")"@),
        ),
        None => if top != JsonAt::Object {
            Some(Failure::InputInvalid("sourcemap is not a JSON object: "@ + path))
        } else {
            None
        },
    }
}

/// Why a source map is refused: it is no JSON, or no object.
pub open spec fn map_failure(doc: Seq<char>, path: Seq<char>) -> Option<Failure> {
    refusal(json_error(doc), json_at(doc, Seq::empty()), path)
}

/// Whether a source map is to get an id, given what is said of a document that is no
/// JSON, what stands at its top, and the ids under its two keys.
pub fn judge_map(
    error: &Option<String>,
    top: &JsonShape,
    snake: &Option<String>,
    camel: &Option<String>,
    path: &str,
    id: &str,
) -> (r: Result<bool, Error>)
    ensures
        match refusal(opt_str(*error), top@, path@) {
            Some(f) => failure(r) == Some(f),
            None => r is Ok && r->Ok_0 == !(opt_str(*snake) == Some(id@) && opt_str(*camel) == Some(
                id@,
            )),
        },
{
    match error {
        Some(e) => {
            let m = cat5("sourcemap is not valid JSON: ", e.as_str(), " (", path, ")");
            return Err(input_invalid(m.as_str()));
        },
        None => {},
    }
    match top {
        JsonShape::Object => {},
        _ => {
            let m = cat2("sourcemap is not a JSON object: ", path);
            return Err(input_invalid(m.as_str()));
        },
    }
    let first = match snake {
        Some(t) => str_eq(t.as_str(), id),
        None => false,
    };
    let second = match camel {
        Some(t) => str_eq(t.as_str(), id),
        None => false,
    };
    Ok(!(first && second))
}

/// A source map carries an id under both of its keys.
pub open spec fn map_carries(doc: Seq<char>, id: Seq<char>) -> bool {
    map_text(doc, "debug_id"@) == Some(id) && map_text(doc, "debugId"@) == Some(id)
}

/// The source map with an id under both of its keys.
pub open spec fn map_with_id(doc: Seq<char>, id: Seq<char>) -> Seq<char> {
    json_with(doc, "debug_id"@, "debugId"@, id)
}

fn key_text(doc: &str, key: &str) -> (r: Option<String>)
    ensures
        opt_str(r) == map_text(doc@, key@),
{
    let p = cat2("/", key);
    proof {
        reveal_strlit("/");
        assert(p@ =~= seq!['/'] + key@);
    }
    text_at(doc, p.as_str())
}

/// The source map with the id of its bundle under both keys; nothing where it
/// carries it already. The id of the bundle counts: another id that the map
/// carries is replaced.
pub fn write_map_debug_id(doc: &str, path: &str, id: &str) -> (r: Result<Option<String>, Error>)
    ensures
        match map_failure(doc@, path@) {
            Some(f) => failure(r) == Some(f),
            None => {
                &&& r is Ok
                &&& r->Ok_0 is None <==> map_carries(doc@, id@)
                &&& r->Ok_0 is Some ==> {
                    &&& r->Ok_0->0@ == map_with_id(doc@, id@)
                    &&& map_carries(r->Ok_0->0@, id@)
                    &&& map_failure(r->Ok_0->0@, path@) is None
                }
            },
        },
{
    proof {
        reveal_strlit("");
        assert(""@ =~= Seq::<char>::empty());
    }
    let error = json_check(doc);
    let top = look_up(doc, "");
    let snake = key_text(doc, "debug_id");
    let camel = key_text(doc, "debugId");
    match judge_map(&error, &top, &snake, &camel, path, id) {
        Ok(true) => {},
        Ok(false) => {
            return Ok(None);
        },
        Err(e) => {
            return Err(e);
        },
    }
    proof {
        reveal_strlit("debug_id");
        reveal_strlit("debugId");
        assert(is_plain_key("debug_id"@));
        assert(is_plain_key("debugId"@));
    }
    Ok(Some(json_insert(doc, "debug_id", "debugId", id)))
}

/// The first of three ids that is there.
pub open spec fn first_id(
    snake: Option<Seq<char>>,
    camel: Option<Seq<char>>,
    uuid: Option<Seq<char>>,
) -> Option<Seq<char>> {
    if snake is Some {
        snake
    } else if camel is Some {
        camel
    } else {
        uuid
    }
}

/// The first of three ids that is there.
pub fn pick_id(snake: Option<String>, camel: Option<String>, uuid: Option<String>) -> (r: Option<
    String,
>)
    ensures
        opt_str(r) == first_id(opt_str(snake), opt_str(camel), opt_str(uuid)),
{
    if snake.is_some() {
        snake
    } else if camel.is_some() {
        camel
    } else {
        uuid
    }
}

/// The id that a source map is known by: under `debug_id`, `debugId` or `uuid`,
/// whichever comes first.
pub open spec fn map_key(doc: Seq<char>) -> Option<Seq<char>> {
    first_id(map_text(doc, "debug_id"@), map_text(doc, "debugId"@), map_text(doc, "uuid"@))
}

/// The id that a source map is known by.
pub fn read_debug_id(doc: &str, path: &str) -> (r: Result<Option<String>, Error>)
    ensures
        match json_error(doc@) {
            Some(e) => failure(r) == Some(
                Failure::InputInvalid(
                    "sourcemap is not valid JSON: "@ + e + " ("@ + path@ + ")"@,
                ),
            ),
            None => r is Ok && opt_str(r->Ok_0) == map_key(doc@),
        },
{
    match json_check(doc) {
        Some(e) => {
            let m = cat5("sourcemap is not valid JSON: ", e.as_str(), " (", path, ")");
            return Err(input_invalid(m.as_str()));
        },
        None => {},
    }
    Ok(pick_id(key_text(doc, "debug_id"), key_text(doc, "debugId"), key_text(doc, "uuid")))
}

/// A map that carries the id of its bundle is known by it.
pub proof fn law_stamped_map_is_known_by_its_id(doc: Seq<char>, id: Seq<char>)
    requires
        map_carries(doc, id),
    ensures
        map_key(doc) == Some(id),
{
}

/// What a run stamped.
#[derive(Debug, Clone, Copy, PartialEq, Eq, Structural)]
pub struct InjectStats {
    /// Bundles that were stamped.
    pub js_injected: u32,
    /// Bundles that carried an id already.
    pub js_already: u32,
    /// Those of them that gained the registration of their id.
    pub js_registered: u32,
    /// Maps that got an id.
    pub maps_updated: u32,
}

impl Default for InjectStats {
    fn default() -> (r: InjectStats)
        ensures
            r == (InjectStats { js_injected: 0, js_already: 0, js_registered: 0, maps_updated: 0 }),
    {
        InjectStats { js_injected: 0, js_already: 0, js_registered: 0, maps_updated: 0 }
    }
}

/// One where something holds, else zero.
pub open spec fn one_if(b: bool) -> nat {
    if b {
        1
    } else {
        0
    }
}

impl InjectStats {
    /// Counts a bundle and its map: whether the bundle carried an id, whether it changes,
    /// and whether its map does.
    pub fn record(&mut self, carried: bool, changed: bool, map_updated: bool)
        requires
            !carried ==> old(self).js_injected < u32::MAX,
            carried ==> old(self).js_already < u32::MAX,
            carried && changed ==> old(self).js_registered < u32::MAX,
            map_updated ==> old(self).maps_updated < u32::MAX,
        ensures
            final(self).js_injected == old(self).js_injected + one_if(!carried),
            final(self).js_already == old(self).js_already + one_if(carried),
            final(self).js_registered == old(self).js_registered + one_if(carried && changed),
            final(self).maps_updated == old(self).maps_updated + one_if(map_updated),
            carried ==> final(self).js_already == old(self).js_already + 1,
            carried ==> final(self).js_injected == old(self).js_injected,
            !carried ==> final(self).js_injected == old(self).js_injected + 1,
            !carried ==> final(self).js_already == old(self).js_already,
            carried && changed <==> final(self).js_registered == old(self).js_registered + 1,
            map_updated <==> final(self).maps_updated == old(self).maps_updated + 1,
    {
        if carried {
            self.js_already = self.js_already + 1;
            if changed {
                self.js_registered = self.js_registered + 1;
            }
        } else {
            self.js_injected = self.js_injected + 1;
        }
        if map_updated {
            self.maps_updated = self.maps_updated + 1;
        }
    }
}

/// What the id of a bundle is made of: a namespace of its own, and the bytes of the bundle;
/// where there is a map, the length of the bundle in front and the map behind.
pub proof fn law_what_an_id_is_made_of(bundle: Seq<u8>, map: Seq<u8>)
    ensures
        debug_id(bundle, None) == uuid_v5(
            seq![176, 149, 238, 94, 83, 0, 77, 169, 138, 5, 4, 222, 176, 106, 144, 1],
            bundle,
        ),
        debug_id(bundle, Some(map)) == uuid_v5(
            seq![176, 149, 238, 94, 83, 0, 77, 169, 138, 5, 4, 222, 176, 106, 144, 1],
            spec_u64_to_le_bytes(bundle.len() as u64) + bundle + map,
        ),
{
}

/// What a bundle gains: a line that registers its id when it is loaded, and a line with the
/// comment that carries it.
pub proof fn law_what_a_bundle_gains(id: Seq<char>)
    ensures
        registration_text(id)
            == "\n;!function(){try{var e=\"undefined\"!=typeof window?window:\"undefined\"!=typeof global?global:\"undefined\"!=typeof globalThis?globalThis:\"undefined\"!=typeof self?self:{},n=(new e.Error).stack;n&&(e._bugseeDebugIds=e._bugseeDebugIds||{},e._bugseeDebugIds[n]=\""@
            + id + "\")}catch(e){}}();\n"@,
        stub_text(id) == registration_text(id) + "//# debugId="@ + id + "\n"@,
{
}

/// The id of a bundle is read from the comment at its end, whatever stands before it.
pub proof fn law_ids_are_read_from_the_comment(head: Seq<char>, id: Seq<u8>)
    requires
        id.len() == 16,
        uuid_parsed(hyphenated_text(id)) is Ok && uuid_parsed(hyphenated_text(id))->Ok_0 == id,
    ensures
        carried_id(head + "//# debugId="@ + hyphenated_text(id) + "\n"@) == Some(
            hyphenated_text(id),
        ),
{
    reveal_strlit("//# debugId=");
    reveal_strlit("\n");
    let t = hyphenated_text(id);
    let p = "//# debugId="@;
    lemma_id_token(t, id);
    let tail = t + "\n"@;
    assert forall|k: int| 0 <= k < tail.len() implies #[trigger] tail[k] != '/' by {
        if k < t.len() {
            assert(tail[k] == t[k]);
        }
    }
    lemma_last_prefix(head, p, tail);
    assert(head + p + t + "\n"@ =~= head + p + tail);
}

/// A bundle without the comment carries no id, and one without the other comment names no
/// map.
pub proof fn law_no_comment_no_id(content: Seq<char>)
    ensures
        !occurs(content, "//# debugId="@) ==> carried_id(content) is None,
        !occurs(content, "//# sourceMappingURL="@) ==> named_map(content) is None,
{
}

/// The map that a bundle names is what follows the comment at its end.
pub proof fn law_maps_are_named_in_the_comment(head: Seq<char>, url: Seq<char>)
    requires
        url.len() > 0,
        forall|i: int| 0 <= i < url.len() ==> '!' <= #[trigger] url[i] <= '~' && url[i] != '/',
    ensures
        named_map(head + "//# sourceMappingURL="@ + url + "\n"@) == Some(url),
{
    reveal_strlit("//# sourceMappingURL=");
    reveal_strlit("\n");
    let p = "//# sourceMappingURL="@;
    let tail = url + "\n"@;
    assert forall|k: int| 0 <= k < tail.len() implies #[trigger] tail[k] != '/' by {
        if k < url.len() {
            assert(tail[k] == url[k]);
        }
    }
    lemma_last_prefix(head, p, tail);
    assert(head + p + url + "\n"@ =~= head + p + tail);
    let ls = seq![url];
    assert(url.last() == url[url.len() - 1]);
    assert(is_line(url)) by {
        if url.contains('\n') {
            let k = choose|k: int| 0 <= k < url.len() && url[k] == '\n';
            assert(url[k] == '\n');
        }
    }
    assert forall|i: int| 0 <= i < ls.len() implies is_line(#[trigger] ls[i]) by {}
    law_lines_come_back(ls);
    assert(text_of_lines(ls) =~= tail) by {
        assert(ls.drop_last() =~= Seq::empty());
        reveal_with_fuel(text_of_lines, 2);
    }
    let e = Seq::<char>::empty();
    law_trimming_takes_the_ends(e, url, e);
}

/// Which map belongs to a bundle: the file that it names, where the name leads down from the
/// bundle and holds no map itself; or else the file of its own name with `.map` behind.
pub proof fn law_maps_by_preference(
    js_path: Seq<char>,
    content: Seq<char>,
    files: Seq<Seq<PathPart>>,
)
    ensures
        ({
            let url = named_map(content);
            let beside = path_parts(js_path + ".map"@);
            let named = joined_path(bundle_dir(js_path), url->0);
            let followed = url is Some && url->0.len() > 0 && !has_prefix(url->0, "data:"@)
                && (forall|i: int|
                0 <= i < path_parts(url->0).len() ==> (#[trigger] path_parts(url->0)[i]) is Name
                    || path_parts(url->0)[i] is Current) && files.contains(named);
            &&& followed ==> map_of(js_path, content, files) == Some(named)
            &&& !followed && files.contains(beside) ==> map_of(js_path, content, files) == Some(
                beside,
            )
            &&& !followed && !files.contains(beside) ==> map_of(js_path, content, files) is None
        }),
{
}

/// The directory of a bundle is that of its path.
pub proof fn law_bundles_have_directories(js_path: Seq<char>)
    ensures
        parent_path(path_parts(js_path)) is Some ==> Some(bundle_dir(js_path)) == parent_path(
            path_parts(js_path),
        ),
        parent_path(path_parts(js_path)) is None ==> bundle_dir(js_path) == seq![
            PathPart::Current,
        ],
{
}

/// The id that a map is known by: what it says under `debug_id`, or else under `debugId`, or
/// else under `uuid`.
pub proof fn law_ids_of_maps_by_preference(doc: Seq<char>)
    ensures
        ({
            let snake = text_of(json_at(doc, "/debug_id"@));
            let camel = text_of(json_at(doc, "/debugId"@));
            let uuid = text_of(json_at(doc, "/uuid"@));
            &&& snake is Some ==> map_key(doc) == snake
            &&& snake is None && camel is Some ==> map_key(doc) == camel
            &&& snake is None && camel is None ==> map_key(doc) == uuid
            &&& forall|id: Seq<char>| #[trigger] map_carries(doc, id) <==> snake == Some(id)
                && camel == Some(id)
        }),
{
    reveal_strlit("/debug_id");
    reveal_strlit("debug_id");
    reveal_strlit("/debugId");
    reveal_strlit("debugId");
    reveal_strlit("/uuid");
    reveal_strlit("uuid");
    assert(seq!['/'] + "debug_id"@ =~= "/debug_id"@);
    assert(seq!['/'] + "debugId"@ =~= "/debugId"@);
    assert(seq!['/'] + "uuid"@ =~= "/uuid"@);
}

/// Which maps are refused: those that are no JSON, and those that are no object.
pub proof fn law_which_maps_are_refused(doc: Seq<char>, path: Seq<char>)
    ensures
        map_failure(doc, path) is None <==> json_error(doc) is None && json_at(doc, Seq::empty())
            == JsonAt::Object,
        json_error(doc) is Some ==> map_failure(doc, path) == Some(
            Failure::InputInvalid(
                "sourcemap is not valid JSON: "@ + json_error(doc)->0 + " ("@ + path + ")"@,
            ),
        ),
        json_error(doc) is None && json_at(doc, Seq::empty()) != JsonAt::Object ==> map_failure(
            doc,
            path,
        ) == Some(Failure::InputInvalid("sourcemap is not a JSON object: "@ + path)),
{
}

} // verus!
