//! The top-level values of a property list, read by the `plist` crate.
use plist::Value;
use crate::numeral::{dec_i64, dec_u64, decimal, signed_decimal};
use crate::text::{opt_str, str_eq};
use vstd::prelude::*;
use vstd::string::*;

verus! {

/// A value of a property list, as far as it is of interest.
#[derive(Debug, PartialEq, Eq)]
pub enum PlistValue {
    Text(String),
    /// A whole number, as a signed and as an unsigned one where it fits.
    Whole(Option<i64>, Option<u64>),
    /// A real number, by its text.
    Real(String),
    Boolean(bool),
    /// A date, data, a list or a dictionary.
    Other,
}

/// A value of a property list, as text and numbers.
pub enum PlistItem {
    Text(Seq<char>),
    Whole(Option<i64>, Option<u64>),
    Real(Seq<char>),
    Boolean(bool),
    Other,
}

impl View for PlistValue {
    type V = PlistItem;

    open spec fn view(&self) -> PlistItem {
        match self {
            PlistValue::Text(s) => PlistItem::Text(s@),
            PlistValue::Whole(s, u) => PlistItem::Whole(*s, *u),
            PlistValue::Real(s) => PlistItem::Real(s@),
            PlistValue::Boolean(b) => PlistItem::Boolean(*b),
            PlistValue::Other => PlistItem::Other,
        }
    }
}

pub open spec fn item_views(v: Seq<(String, PlistValue)>) -> Seq<(Seq<char>, PlistItem)> {
    v.map_values(|e: (String, PlistValue)| (e.0@, e.1@))
}

/// The keys and values of the dictionary that the bytes of a property list hold;
/// `None` where they hold none.
pub uninterp spec fn plist_items(bytes: Seq<u8>) -> Option<Seq<(Seq<char>, PlistItem)>>;

/// Calls `plist::Value::from_reader` and `Value::into_dictionary`. The result is
/// named [`plist_items`]; nothing more is said of it.
#[verifier::external_body]
pub(crate) fn read_items(bytes: &[u8]) -> (r: Option<Vec<(String, PlistValue)>>)
    ensures
        match r {
            Some(v) => plist_items(bytes@) == Some(item_views(v@)),
            None => plist_items(bytes@) is None,
        },
{
    let value = Value::from_reader(std::io::Cursor::new(bytes)).ok()?;
    let items = value.into_dictionary()?.into_iter().map(|(k, v)| match v {
        Value::String(s) => (k, PlistValue::Text(s)),
        Value::Integer(i) => (k, PlistValue::Whole(i.as_signed(), i.as_unsigned())),
        Value::Real(f) => (k, PlistValue::Real(f.to_string())),
        Value::Boolean(b) => (k, PlistValue::Boolean(b)),
        _ => (k, PlistValue::Other),
    });
    Some(items.collect())
}

/// The text of a value, where it has one.
pub open spec fn item_text(v: PlistItem) -> Option<Seq<char>> {
    match v {
        PlistItem::Text(s) => Some(s),
        PlistItem::Whole(Some(n), _) => Some(signed_decimal(n as int)),
        PlistItem::Whole(None, Some(n)) => Some(decimal(n as nat)),
        PlistItem::Whole(None, None) => None,
        PlistItem::Real(s) => Some(s),
        PlistItem::Boolean(b) => Some(
            if b {
                "true"@
            } else {
                "false"@
            },
        ),
        PlistItem::Other => None,
    }
}

/// The text of a value, where it has one.
pub fn stringify_plist_value(v: &PlistValue) -> (r: Option<String>)
    ensures
        opt_str(r) == item_text(v@),
{
    match v {
        PlistValue::Text(s) => Some(s.clone()),
        PlistValue::Whole(Some(n), _) => Some(dec_i64(*n)),
        PlistValue::Whole(None, Some(n)) => Some(dec_u64(*n)),
        PlistValue::Whole(None, None) => None,
        PlistValue::Real(s) => Some(s.clone()),
        PlistValue::Boolean(b) => Some(
            if *b {
                "true".to_owned()
            } else {
                "false".to_owned()
            },
        ),
        PlistValue::Other => None,
    }
}

/// The keys whose values have a text, with these texts.
pub open spec fn plist_texts(items: Seq<(Seq<char>, PlistItem)>) -> Seq<(Seq<char>, Seq<char>)>
    decreases items.len(),
{
    if items.len() == 0 {
        Seq::empty()
    } else {
        let r = plist_texts(items.drop_last());
        match item_text(items.last().1) {
            Some(t) => r.push((items.last().0, t)),
            None => r,
        }
    }
}

pub open spec fn pair_views(v: Seq<(String, String)>) -> Seq<(Seq<char>, Seq<char>)> {
    v.map_values(|e: (String, String)| (e.0@, e.1@))
}

/// The keys of a dictionary whose values have a text, with these texts.
pub fn list_texts(items: &Vec<(String, PlistValue)>) -> (r: Vec<(String, String)>)
    ensures
        pair_views(r@) == plist_texts(item_views(items@)),
{
    let ghost all = item_views(items@);
    let mut out: Vec<(String, String)> = Vec::new();
    let mut i: usize = 0;
    proof {
        assert(pair_views(out@) =~= plist_texts(all.take(0)));
    }
    while i < items.len()
        invariant
            i <= items@.len(),
            all == item_views(items@),
            pair_views(out@) == plist_texts(all.take(i as int)),
        decreases items@.len() - i,
    {
        proof {
            assert(all.take(i + 1).drop_last() =~= all.take(i as int));
            assert(all.take(i + 1).last() == (items@[i as int].0@, items@[i as int].1@));
        }
        match stringify_plist_value(&items[i].1) {
            Some(t) => {
                let e = (items[i].0.clone(), t);
                proof {
                    assert(pair_views(out@.push(e)) =~= pair_views(out@).push((e.0@, e.1@)));
                }
                out.push(e);
            },
            None => {},
        }
        i += 1;
    }
    proof {
        assert(all.take(i as int) =~= all);
    }
    out
}

/// The top-level keys of a property list whose values have a text, with these
/// texts; nothing where the file could not be read or is none. `bytes` are those
/// of the file, where it could be read.
pub fn read_plist_to_json(bytes: Option<&[u8]>) -> (r: Vec<(String, String)>)
    ensures
        pair_views(r@) == match bytes {
            Some(b) => match plist_items(b@) {
                Some(items) => plist_texts(items),
                None => Seq::empty(),
            },
            None => Seq::empty(),
        },
{
    let none: Vec<(String, String)> = Vec::new();
    proof {
        assert(pair_views(none@) =~= Seq::empty());
    }
    match bytes {
        Some(b) => match read_items(b) {
            Some(items) => list_texts(&items),
            None => none,
        },
        None => none,
    }
}

/// The text under a key, where there is one and it is not empty.
pub open spec fn text_under(pairs: Seq<(Seq<char>, Seq<char>)>, key: Seq<char>) -> Option<Seq<char>>
    decreases pairs.len(),
{
    if pairs.len() == 0 {
        None
    } else if pairs.last().0 == key {
        if pairs.last().1.len() > 0 {
            Some(pairs.last().1)
        } else {
            None
        }
    } else {
        text_under(pairs.drop_last(), key)
    }
}

/// The text under a key, where there is one and it is not empty.
pub fn plist_text(pairs: &Vec<(String, String)>, key: &str) -> (r: Option<String>)
    ensures
        opt_str(r) == text_under(pair_views(pairs@), key@),
{
    let ghost all = pair_views(pairs@);
    let mut i: usize = pairs.len();
    proof {
        assert(all.take(i as int) =~= all);
    }
    while i > 0
        invariant
            i <= pairs@.len(),
            all == pair_views(pairs@),
            text_under(all, key@) == text_under(all.take(i as int), key@),
        decreases i,
    {
        proof {
            assert(all.take(i as int).drop_last() =~= all.take(i - 1));
            assert(all.take(i as int).last() == (pairs@[i - 1].0@, pairs@[i - 1].1@));
        }
        i -= 1;
        if str_eq(pairs[i].0.as_str(), key) {
            if pairs[i].1.as_str().is_empty() {
                return None;
            }
            return Some(pairs[i].1.clone());
        }
    }
    None
}

/// What the property list of an app says of it.
#[derive(Debug, Clone, PartialEq, Eq)]
pub struct BundleInfo {
    pub package_id: Option<String>,
    pub version: Option<String>,
    pub build: Option<String>,
}

/// What the texts of an app's property list say of it.
pub fn resolve_bundle_info(pairs: &Vec<(String, String)>) -> (r: BundleInfo)
    ensures
        opt_str(r.package_id) == text_under(pair_views(pairs@), "CFBundleIdentifier"@),
        opt_str(r.version) == text_under(pair_views(pairs@), "CFBundleShortVersionString"@),
        opt_str(r.build) == text_under(pair_views(pairs@), "CFBundleVersion"@),
{
    BundleInfo {
        package_id: plist_text(pairs, "CFBundleIdentifier"),
        version: plist_text(pairs, "CFBundleShortVersionString"),
        build: plist_text(pairs, "CFBundleVersion"),
    }
}

/// The texts of values: texts and real numbers as they are, whole numbers in decimal, truth
/// by its name, and none of anything else.
pub proof fn law_texts_of_values(s: Seq<char>, n: i64, u: u64, b: bool, other: Option<u64>)
    ensures
        item_text(PlistItem::Text(s)) == Some(s),
        item_text(PlistItem::Real(s)) == Some(s),
        item_text(PlistItem::Whole(Some(n), other)) == Some(signed_decimal(n as int)),
        item_text(PlistItem::Whole(None, Some(u))) == Some(decimal(u as nat)),
        item_text(PlistItem::Whole(None, None)) is None,
        b ==> item_text(PlistItem::Boolean(b)) == Some("true"@),
        !b ==> item_text(PlistItem::Boolean(b)) == Some("false"@),
        item_text(PlistItem::Other) is None,
{
}

/// A value with a text is listed under its key behind those before it, and one without is
/// left out.
pub proof fn law_values_with_a_text_are_listed(
    items: Seq<(Seq<char>, PlistItem)>,
    key: Seq<char>,
    v: PlistItem,
)
    ensures
        item_text(v) is Some ==> plist_texts(items.push((key, v))) == plist_texts(items).push(
            (key, item_text(v)->0),
        ),
        item_text(v) is None ==> plist_texts(items.push((key, v))) == plist_texts(items),
        plist_texts(Seq::empty()) == Seq::<(Seq<char>, Seq<char>)>::empty(),
{
    assert(items.push((key, v)).drop_last() =~= items);
}

/// The text under a key is the last one that was put there, unless it is empty; other keys
/// do not count.
pub proof fn law_texts_are_found_under_their_keys(
    pairs: Seq<(Seq<char>, Seq<char>)>,
    key: Seq<char>,
    text: Seq<char>,
    other: Seq<char>,
)
    requires
        other != key,
    ensures
        text.len() > 0 ==> text_under(pairs.push((key, text)), key) == Some(text),
        text.len() == 0 ==> text_under(pairs.push((key, text)), key) is None,
        text_under(pairs.push((other, text)), key) == text_under(pairs, key),
        text_under(Seq::empty(), key) is None,
{
    assert(pairs.push((other, text)).drop_last() =~= pairs);
}

} // verus!
