//! How archives are packed: with which method, and what goes into them.
use crate::error::{Error, Failure, config_invalid, failure};
use crate::numeral::{dec_i64, signed_decimal};
use crate::text::{cat2, cat5};
use vstd::prelude::*;
use vstd::string::*;

verus! {

/// The level of compression that is used where none is given.
pub const DEFAULT_ZSTD_LEVEL: i64 = 11;

/// The lowest level of compression that is accepted.
pub const MIN_PRODUCTION_ZSTD_LEVEL: i64 = 9;

/// The highest level of compression.
pub const MAX_ZSTD_LEVEL: i64 = 22;

/// The compression of an archive.
#[derive(Debug, Clone, Copy, PartialEq, Eq, Structural)]
pub enum Strategy {
    /// Zstd at the given level.
    Zstd(i64),
    /// DEFLATE, for diagnosis only.
    Deflate,
}

impl Default for Strategy {
    fn default() -> (r: Strategy)
        ensures
            r == Strategy::Zstd(DEFAULT_ZSTD_LEVEL),
    {
        Strategy::Zstd(DEFAULT_ZSTD_LEVEL)
    }
}

/// The compression that the flags ask for, or why they are refused.
pub open spec fn strategy_of(no_zstd: bool, zstd_level: Option<i64>) -> Result<Strategy, Failure> {
    if no_zstd {
        if zstd_level is Some {
            Err(Failure::ConfigInvalid("--zstd-level is incompatible with --no-zstd"@))
        } else {
            Ok(Strategy::Deflate)
        }
    } else {
        let level = match zstd_level {
            Some(l) => l,
            None => DEFAULT_ZSTD_LEVEL,
        };
        if level < 1 || level > MAX_ZSTD_LEVEL {
            Err(
                Failure::ConfigInvalid(
                    "--zstd-level must be in 1..=22, got "@ + signed_decimal(level as int),
                ),
            )
        } else if level < MIN_PRODUCTION_ZSTD_LEVEL {
            Err(
                Failure::ConfigInvalid(
                    "--zstd-level "@ + signed_decimal(level as int)
                        + " is below the production floor of "@ + signed_decimal(
                        MIN_PRODUCTION_ZSTD_LEVEL as int,
                    ) + "; pass --no-zstd if intentional"@,
                ),
            )
        } else {
            Ok(Strategy::Zstd(level))
        }
    }
}

/// The compression that the flags ask for.
pub fn resolve_strategy(no_zstd: bool, zstd_level: Option<i64>) -> (r: Result<Strategy, Error>)
    ensures
        match strategy_of(no_zstd, zstd_level) {
            Ok(s) => r == Ok::<Strategy, Error>(s),
            Err(f) => failure(r) == Some(f),
        },
{
    if no_zstd {
        if zstd_level.is_some() {
            return Err(config_invalid("--zstd-level is incompatible with --no-zstd"));
        }
        return Ok(Strategy::Deflate);
    }
    let level: i64 = match zstd_level {
        Some(l) => l,
        None => DEFAULT_ZSTD_LEVEL,
    };
    let shown = dec_i64(level);
    if level < 1 || level > MAX_ZSTD_LEVEL {
        let m = cat2("--zstd-level must be in 1..=22, got ", shown.as_str());
        return Err(config_invalid(m.as_str()));
    }
    if level < MIN_PRODUCTION_ZSTD_LEVEL {
        let floor = dec_i64(MIN_PRODUCTION_ZSTD_LEVEL);
        let m = cat5(
            "--zstd-level ",
            shown.as_str(),
            " is below the production floor of ",
            floor.as_str(),
            "; pass --no-zstd if intentional",
        );
        return Err(config_invalid(m.as_str()));
    }
    Ok(Strategy::Zstd(level))
}

/// No flags lead to a level below the floor or above the ceiling, and every
/// level between them can be asked for.
pub proof fn law_levels_are_within_bounds(no_zstd: bool, zstd_level: Option<i64>, level: i64)
    ensures
        strategy_of(no_zstd, zstd_level) == Ok::<Strategy, Failure>(Strategy::Zstd(level))
            ==> MIN_PRODUCTION_ZSTD_LEVEL <= level <= MAX_ZSTD_LEVEL,
        MIN_PRODUCTION_ZSTD_LEVEL <= level <= MAX_ZSTD_LEVEL ==> strategy_of(false, Some(level))
            == Ok::<Strategy, Failure>(Strategy::Zstd(level)),
        strategy_of(no_zstd, zstd_level) == Ok::<Strategy, Failure>(Strategy::Deflate) <==> no_zstd
            && zstd_level is None,
{
}

/// An entry of an archive.
#[derive(Debug, Clone, Copy)]
pub struct ZipEntry<'a> {
    /// Its name in the archive.
    pub name: &'a str,
    /// The path of the file whose bytes it holds.
    pub source: &'a str,
    /// Whether it is stored as it is, whatever the archive's compression.
    pub store: bool,
}

impl<'a> ZipEntry<'a> {
    /// An entry with the archive's compression.
    pub fn compressed(name: &'a str, source: &'a str) -> (r: ZipEntry<'a>)
        ensures
            r.name@ == name@,
            r.source@ == source@,
            !r.store,
    {
        ZipEntry { name, source, store: false }
    }

    /// An entry that is stored as it is.
    pub fn stored(name: &'a str, source: &'a str) -> (r: ZipEntry<'a>)
        ensures
            r.name@ == name@,
            r.source@ == source@,
            r.store,
    {
        ZipEntry { name, source, store: true }
    }
}

/// How the bytes of an entry are written.
#[derive(Debug, Clone, Copy, PartialEq, Eq, Structural)]
pub enum Method {
    Stored,
    Zstd(i64),
    Deflated,
}

/// The method of an entry.
pub open spec fn method_of(store: bool, strategy: Strategy) -> Method {
    if store {
        Method::Stored
    } else {
        match strategy {
            Strategy::Zstd(level) => Method::Zstd(level),
            Strategy::Deflate => Method::Deflated,
        }
    }
}

/// An entry as it is to be written.
#[derive(Debug, PartialEq, Eq)]
pub struct PlannedEntry {
    pub name: String,
    pub source: String,
    pub method: Method,
}

/// An entry as it is to be written, as text.
pub struct Planned {
    pub name: Seq<char>,
    pub source: Seq<char>,
    pub method: Method,
}

impl View for PlannedEntry {
    type V = Planned;

    open spec fn view(&self) -> Planned {
        Planned { name: self.name@, source: self.source@, method: self.method }
    }
}

pub open spec fn planned(v: Seq<PlannedEntry>) -> Seq<Planned> {
    v.map_values(|e: PlannedEntry| e@)
}

pub open spec fn plan_entry(e: ZipEntry, strategy: Strategy) -> Planned {
    Planned { name: e.name@, source: e.source@, method: method_of(e.store, strategy) }
}

/// The entries of an archive as they are to be written, in the given order.
pub fn pack_entries(entries: &Vec<ZipEntry>, strategy: Strategy) -> (r: Vec<PlannedEntry>)
    ensures
        planned(r@) == entries@.map_values(|e: ZipEntry| plan_entry(e, strategy)),
{
    let mut out: Vec<PlannedEntry> = Vec::new();
    let mut i: usize = 0;
    while i < entries.len()
        invariant
            i <= entries@.len(),
            out@.len() == i,
            forall|k: int|
                0 <= k < i ==> (#[trigger] out@[k])@ == plan_entry(entries@[k], strategy),
        decreases entries@.len() - i,
    {
        let e = entries[i];
        let method = if e.store {
            Method::Stored
        } else {
            match strategy {
                Strategy::Zstd(level) => Method::Zstd(level),
                Strategy::Deflate => Method::Deflated,
            }
        };
        out.push(PlannedEntry { name: e.name.to_owned(), source: e.source.to_owned(), method });
        i += 1;
    }
    proof {
        assert(planned(out@) =~= entries@.map_values(|e: ZipEntry| plan_entry(e, strategy)));
    }
    out
}

/// An archive of one file.
pub fn pack_single_entry(input: &str, entry_name: &str, strategy: Strategy) -> (r: Vec<PlannedEntry>)
    ensures
        planned(r@) == seq![
            Planned { name: entry_name@, source: input@, method: method_of(false, strategy) },
        ],
{
    let mut entries: Vec<ZipEntry> = Vec::new();
    entries.push(ZipEntry::compressed(entry_name, input));
    let r = pack_entries(&entries, strategy);
    proof {
        assert(planned(r@) =~= seq![
            Planned { name: entry_name@, source: input@, method: method_of(false, strategy) },
        ]);
    }
    r
}

/// The levels that can be asked for are nine to twenty-two, and eleven is taken where none
/// is asked for; without zstd there are no levels.
pub proof fn law_levels_from_nine_to_twenty_two(level: i64)
    ensures
        strategy_of(false, None) == Ok::<Strategy, Failure>(Strategy::Zstd(11)),
        strategy_of(true, None) == Ok::<Strategy, Failure>(Strategy::Deflate),
        strategy_of(true, Some(level)) is Err,
        9 <= level <= 22 ==> strategy_of(false, Some(level)) == Ok::<Strategy, Failure>(
            Strategy::Zstd(level),
        ),
        level < 9 || level > 22 ==> strategy_of(false, Some(level)) is Err && strategy_of(
            false,
            Some(level),
        )->Err_0 is ConfigInvalid,
{
}

/// An entry that is to be stored is stored; any other is written as the archive asks.
pub proof fn law_how_entries_are_written(level: i64, strategy: Strategy)
    ensures
        method_of(true, strategy) == Method::Stored,
        method_of(false, Strategy::Zstd(level)) == Method::Zstd(level),
        method_of(false, Strategy::Deflate) == Method::Deflated,
{
}

/// What is said of a level that is refused.
pub proof fn law_how_levels_are_refused(level: i64)
    ensures
        strategy_of(true, Some(level)) == Err::<Strategy, Failure>(
            Failure::ConfigInvalid("--zstd-level is incompatible with --no-zstd"@),
        ),
        level < 1 || level > 22 ==> strategy_of(false, Some(level)) == Err::<Strategy, Failure>(
            Failure::ConfigInvalid(
                "--zstd-level must be in 1..=22, got "@ + signed_decimal(level as int),
            ),
        ),
        1 <= level < 9 ==> strategy_of(false, Some(level)) == Err::<Strategy, Failure>(
            Failure::ConfigInvalid(
                "--zstd-level "@ + signed_decimal(level as int)
                    + " is below the production floor of "@ + signed_decimal(9)
                    + "; pass --no-zstd if intentional"@,
            ),
        ),
{
}

} // verus!
