//! Packing a build artefact, with the mapping of its names where there is one,
//! into the archive that is uploaded.
use crate::compress::{
    Method, Planned, PlannedEntry, ZipEntry, method_of, pack_entries, planned, resolve_strategy,
    strategy_of,
};
use crate::error::{Error, Failure, config_invalid, failure, input_not_found};
use crate::paths::{file_name, last_name, parse_path, path_parts};
use crate::text::{cat2, ends_with, has_suffix, lowered, opt_str, to_lower};
use vstd::prelude::*;
use vstd::string::*;

verus! {

/// The arguments of `pack`.
#[derive(Debug)]
pub struct PackArgs {
    pub artifact: String,
    pub mapping: Option<String>,
    pub out: String,
    pub no_zstd: bool,
    pub zstd_level: Option<i64>,
}

/// A name that the server takes for a build artefact.
pub open spec fn is_artifact_name(name: Seq<char>) -> bool {
    let l = lowered(name);
    has_suffix(l, ".aab"@) || has_suffix(l, ".apk"@) || has_suffix(l, ".ipa"@)
}

/// What a set of arguments asks for, given whether the files are there.
pub open spec fn pack_plan(
    artifact: Seq<char>,
    mapping: Option<Seq<char>>,
    no_zstd: bool,
    zstd_level: Option<i64>,
    artifact_is_file: bool,
    mapping_is_file: bool,
) -> Result<Seq<Planned>, Failure> {
    let name = last_name(path_parts(artifact));
    if !artifact_is_file {
        Err(
            Failure::InputNotFound("artifact does not exist or is not a file: "@ + artifact),
        )
    } else if mapping is Some && !mapping_is_file {
        Err(
            Failure::InputNotFound("mapping does not exist or is not a file: "@ + mapping->0),
        )
    } else if name is None {
        Err(Failure::ConfigInvalid("artifact path has no usable file name"@))
    } else if !is_artifact_name(name->0) {
        Err(
            Failure::ConfigInvalid("artifact must end in .aab/.apk/.ipa, got: "@ + name->0),
        )
    } else {
        match strategy_of(no_zstd, zstd_level) {
            Err(f) => Err(f),
            Ok(s) => {
                let first = Planned { name: name->0, source: artifact, method: Method::Stored };
                Ok(
                    match mapping {
                        Some(m) => seq![
                            first,
                            Planned { name: "mapping.txt"@, source: m, method: method_of(false, s) },
                        ],
                        None => seq![first],
                    },
                )
            },
        }
    }
}

/// The archive that the arguments ask for: the artefact stored under its own
/// name, then the mapping, compressed. `artifact_is_file` and `mapping_is_file`
/// say whether the two paths are files.
pub fn dispatch(args: &PackArgs, artifact_is_file: bool, mapping_is_file: bool) -> (r: Result<
    Vec<PlannedEntry>,
    Error,
>)
    ensures
        match pack_plan(
            args.artifact@,
            opt_str(args.mapping),
            args.no_zstd,
            args.zstd_level,
            artifact_is_file,
            mapping_is_file,
        ) {
            Ok(p) => r is Ok && planned(r->Ok_0@) == p,
            Err(f) => failure(r) == Some(f),
        },
{
    if !artifact_is_file {
        let m = cat2("artifact does not exist or is not a file: ", args.artifact.as_str());
        return Err(input_not_found(m.as_str()));
    }
    match &args.mapping {
        Some(p) => {
            if !mapping_is_file {
                let m = cat2("mapping does not exist or is not a file: ", p.as_str());
                return Err(input_not_found(m.as_str()));
            }
        },
        None => {},
    }
    let parts = parse_path(args.artifact.as_str());
    let name = match file_name(&parts) {
        Some(n) => n,
        None => {
            return Err(config_invalid("artifact path has no usable file name"));
        },
    };
    let lower = to_lower(name.as_str());
    let l = lower.as_str();
    if !(ends_with(l, ".aab") || ends_with(l, ".apk") || ends_with(l, ".ipa")) {
        let m = cat2("artifact must end in .aab/.apk/.ipa, got: ", name.as_str());
        return Err(config_invalid(m.as_str()));
    }
    let strategy = match resolve_strategy(args.no_zstd, args.zstd_level) {
        Ok(s) => s,
        Err(e) => {
            return Err(e);
        },
    };
    let mut entries: Vec<ZipEntry> = Vec::new();
    entries.push(ZipEntry::stored(name.as_str(), args.artifact.as_str()));
    match &args.mapping {
        Some(p) => {
            entries.push(ZipEntry::compressed("mapping.txt", p.as_str()));
        },
        None => {},
    }
    let r = pack_entries(&entries, strategy);
    proof {
        let p = pack_plan(
            args.artifact@,
            opt_str(args.mapping),
            args.no_zstd,
            args.zstd_level,
            artifact_is_file,
            mapping_is_file,
        );
        assert(planned(r@) =~= p->Ok_0);
    }
    Ok(r)
}

/// When an artefact is packed: where it is a file whose name ends in `.aab`, `.apk` or
/// `.ipa`, in any case, the mapping is a file if there is one, and the compression is
/// accepted. The artefact comes first, stored under its own name; the mapping behind it,
/// compressed, as `mapping.txt`.
pub proof fn law_what_is_packed(
    artifact: Seq<char>,
    mapping: Option<Seq<char>>,
    no_zstd: bool,
    zstd_level: Option<i64>,
    artifact_is_file: bool,
    mapping_is_file: bool,
)
    ensures
        ({
            let r = pack_plan(
                artifact,
                mapping,
                no_zstd,
                zstd_level,
                artifact_is_file,
                mapping_is_file,
            );
            let name = last_name(path_parts(artifact));
            &&& r is Ok <==> artifact_is_file && (mapping is Some ==> mapping_is_file) && name
                is Some && (has_suffix(lowered(name->0), ".aab"@) || has_suffix(
                lowered(name->0),
                ".apk"@,
            ) || has_suffix(lowered(name->0), ".ipa"@)) && strategy_of(no_zstd, zstd_level) is Ok
            &&& r is Ok ==> {
                let p = r->Ok_0;
                &&& p.len() == (if mapping is Some {
                    2nat
                } else {
                    1nat
                })
                &&& p[0].name == name->0
                &&& p[0].source == artifact
                &&& p[0].method == Method::Stored
                &&& mapping is Some ==> p[1].name == "mapping.txt"@ && p[1].source == mapping->0
                    && p[1].method != Method::Stored
            }
            &&& !artifact_is_file ==> r is Err && r->Err_0 is InputNotFound
            &&& artifact_is_file && mapping is Some && !mapping_is_file ==> r is Err
                && r->Err_0 is InputNotFound
        }),
{
}

} // verus!
