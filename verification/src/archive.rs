//! The archive inspector: ZIP and TAR families opened in memory.
//!
//! The `zip`, `tar`, `flate2`, `bzip2` and `xz2` crates list members and
//! decompress behind trusted wrappers. Everything after that is verified:
//! each file member's extension from its in-archive name, its virtual URL
//! `{parent}!{name}`, its asset path, and the pattern hits of its text
//! members, aggregated into the parent's archive report block.

use std::io::Read;
use vstd::prelude::*;
use vstd::string::StringExecFns;
use vstd::slice::slice_to_vec;
use vstd::utf8::valid_utf8;
use vstd::utf8::decode_utf8;
use crate::strutil::str_eq;
use crate::strutil::to_lower;
use crate::strutil::to_lower_exec;
use crate::urlparse::after_last;
use crate::urlparse::after_last_exec;
use crate::text::is_probably_text;
use crate::text::is_probably_text_spec;
use crate::text::bytes_to_string;
use crate::patterns::Ruleset;
use crate::patterns::rules_view;
use crate::patterns::scan_spec;
use crate::patterns::scan_patterns;
use crate::workspace::asset_path_spec;
use crate::workspace::asset_path_from_dirs;
use crate::report::findings_block_spec;
use crate::report::findings_block;

verus! {

/// One member as an archive reader lists it.
pub struct RawMember {
    pub name: String,
    pub data: Vec<u8>,
    pub is_file: bool,
}

pub open spec fn members_view(ms: Seq<RawMember>) -> Seq<(Seq<char>, Seq<u8>, bool)> {
    ms.map_values(|m: RawMember| (m.name@, m.data@, m.is_file))
}

/// The members of a ZIP archive: name, bytes, file flag; `None` when the
/// archive cannot be opened.
pub uninterp spec fn zip_members(data: Seq<u8>) -> Option<Seq<(Seq<char>, Seq<u8>, bool)>>;

/// The members of a TAR archive, as for ZIP.
pub uninterp spec fn tar_members(data: Seq<u8>) -> Option<Seq<(Seq<char>, Seq<u8>, bool)>>;

/// The gzip decompression of the bytes, `None` on a decode error.
pub uninterp spec fn gzip_decoded(data: Seq<u8>) -> Option<Seq<u8>>;

/// The bzip2 decompression of the bytes, `None` on a decode error.
pub uninterp spec fn bzip2_decoded(data: Seq<u8>) -> Option<Seq<u8>>;

/// The xz decompression of the bytes, `None` on a decode error.
pub uninterp spec fn xz_decoded(data: Seq<u8>) -> Option<Seq<u8>>;

/// Relies on zip::ZipArchive over an in-memory cursor, its by_index, name,
/// is_file and Read impl: the member list is a pure function of the bytes;
/// members that fail to read are left out.
#[verifier::external_body]
fn zip_entries(data: &[u8]) -> (r: Option<Vec<RawMember>>)
    ensures
        r is Some <==> zip_members(data@) is Some,
        r matches Some(v) ==> zip_members(data@) == Some(members_view(v@)),
{
    let cur = std::io::Cursor::new(data);
    let mut zip = match zip::ZipArchive::new(cur) { Ok(z) => z, Err(_) => return None };
    let mut out = Vec::new();
    for i in 0..zip.len() {
        let mut e = match zip.by_index(i) { Ok(e) => e, Err(_) => continue };
        let (name, is_file) = (e.name().to_string(), e.is_file());
        let mut buf = Vec::new();
        if e.read_to_end(&mut buf).is_err() { continue; }
        out.push(RawMember { name, data: buf, is_file });
    }
    Some(out)
}

/// Relies on tar::Archive over a byte slice, its entries, header entry type,
/// path and Read impl: the member list is a pure function of the bytes;
/// members that fail to read are left out.
#[verifier::external_body]
fn tar_entries(data: &[u8]) -> (r: Option<Vec<RawMember>>)
    ensures
        r is Some <==> tar_members(data@) is Some,
        r matches Some(v) ==> tar_members(data@) == Some(members_view(v@)),
{
    let mut ar = tar::Archive::new(data);
    let entries = match ar.entries() { Ok(e) => e, Err(_) => return None };
    let mut out = Vec::new();
    for e in entries {
        let mut e = match e { Ok(e) => e, Err(_) => continue };
        let name = match e.path() { Ok(p) => p.to_string_lossy().to_string(), Err(_) => continue };
        let is_file = e.header().entry_type().is_file();
        let mut buf = Vec::new();
        if e.read_to_end(&mut buf).is_err() { continue; }
        out.push(RawMember { name, data: buf, is_file });
    }
    Some(out)
}

/// Relies on flate2::read::GzDecoder: gzip decompression is a pure function
/// of the bytes, `None` on a malformed stream.
#[verifier::external_body]
fn gunzip(data: &[u8]) -> (r: Option<Vec<u8>>)
    ensures
        r is Some <==> gzip_decoded(data@) is Some,
        r matches Some(v) ==> gzip_decoded(data@) == Some(v@),
{
    let mut d = flate2::read::GzDecoder::new(data);
    let mut out = Vec::new();
    match d.read_to_end(&mut out) {
        Ok(_) => Some(out),
        Err(_) => None,
    }
}

/// Relies on bzip2::read::BzDecoder, as for gzip.
#[verifier::external_body]
fn bunzip2(data: &[u8]) -> (r: Option<Vec<u8>>)
    ensures
        r is Some <==> bzip2_decoded(data@) is Some,
        r matches Some(v) ==> bzip2_decoded(data@) == Some(v@),
{
    let mut d = bzip2::read::BzDecoder::new(data);
    let mut out = Vec::new();
    match d.read_to_end(&mut out) {
        Ok(_) => Some(out),
        Err(_) => None,
    }
}

/// Relies on xz2::read::XzDecoder, as for gzip.
#[verifier::external_body]
fn unxz(data: &[u8]) -> (r: Option<Vec<u8>>)
    ensures
        r is Some <==> xz_decoded(data@) is Some,
        r matches Some(v) ==> xz_decoded(data@) == Some(v@),
{
    let mut d = xz2::read::XzDecoder::new(data);
    let mut out = Vec::new();
    match d.read_to_end(&mut out) {
        Ok(_) => Some(out),
        Err(_) => None,
    }
}

/// A member's extension: what follows the last dot of its in-archive name
/// (the whole name when it has no dot), lowercased.
pub open spec fn member_ext_spec(name: Seq<char>) -> Seq<char> {
    to_lower(after_last(name, '.'))
}

pub fn member_ext(name: &str) -> (r: String)
    ensures
        r@ == member_ext_spec(name@),
{
    to_lower_exec(after_last_exec(name, '.').as_str())
}

/// The virtual URL of an archive member.
pub open spec fn virtual_url_spec(parent: Seq<char>, name: Seq<char>) -> Seq<char> {
    parent + "!"@ + name
}

pub fn virtual_url(parent: &str, name: &str) -> (r: String)
    ensures
        r@ == virtual_url_spec(parent@, name@),
{
    let mut out = String::new();
    out.append(parent);
    out.append("!");
    out.append(name);
    proof {
        assert(out@ =~= virtual_url_spec(parent@, name@));
    }
    out
}

/// A file to persist: its asset path and its bytes.
pub struct SaveItem {
    pub path: String,
    pub data: Vec<u8>,
}

pub open spec fn saves_view(s: Seq<SaveItem>) -> Seq<(Seq<char>, Seq<u8>)> {
    s.map_values(|x: SaveItem| (x.path@, x.data@))
}

/// The asset files an archive's file members are persisted at: each member
/// goes where the asset router sends its virtual URL and extension, scripts
/// bucket included.
pub open spec fn member_saves(
    parent: Seq<char>,
    js_dir: Seq<char>,
    assets_dir: Seq<char>,
    ms: Seq<(Seq<char>, Seq<u8>, bool)>,
) -> Seq<(Seq<char>, Seq<u8>)>
    decreases ms.len(),
{
    if ms.len() == 0 {
        Seq::empty()
    } else {
        member_saves(parent, js_dir, assets_dir, ms.drop_last()) + if ms.last().2 {
            seq![
                (
                    asset_path_spec(
                        virtual_url_spec(parent, ms.last().0),
                        member_ext_spec(ms.last().0),
                        js_dir,
                        assets_dir,
                    ),
                    ms.last().1,
                ),
            ]
        } else {
            Seq::<(Seq<char>, Seq<u8>)>::empty()
        }
    }
}

/// The pattern hits of an archive's probably-text, valid-UTF-8 file members,
/// in member order.
pub open spec fn member_hits(
    rules: Seq<(Seq<char>, Seq<char>)>,
    ignores: Seq<Seq<char>>,
    ms: Seq<(Seq<char>, Seq<u8>, bool)>,
) -> Seq<(Seq<char>, Seq<char>)>
    decreases ms.len(),
{
    if ms.len() == 0 {
        Seq::empty()
    } else {
        member_hits(rules, ignores, ms.drop_last()) + if ms.last().2 && is_probably_text_spec(
            ms.last().1,
        ) && valid_utf8(ms.last().1) {
            scan_spec(rules, ignores, decode_utf8(ms.last().1))
        } else {
            Seq::<(Seq<char>, Seq<char>)>::empty()
        }
    }
}

/// The members an archive of the given extension yields: ZIP and TAR are
/// opened directly, the compressed TAR variants after decompression; other
/// extensions yield nothing. `None` when opening fails.
pub open spec fn archive_members_spec(ext: Seq<char>, data: Seq<u8>) -> Option<
    Seq<(Seq<char>, Seq<u8>, bool)>,
> {
    if ext == "zip"@ {
        zip_members(data)
    } else if ext == "tar"@ {
        tar_members(data)
    } else if ext == "gz"@ || ext == "tgz"@ {
        match gzip_decoded(data) {
            Some(d) => tar_members(d),
            None => None,
        }
    } else if ext == "bz2"@ {
        match bzip2_decoded(data) {
            Some(d) => tar_members(d),
            None => None,
        }
    } else if ext == "xz"@ {
        match xz_decoded(data) {
            Some(d) => tar_members(d),
            None => None,
        }
    } else {
        Some(Seq::empty())
    }
}

/// What inspecting one archive produces: files to persist and the parent's
/// archive report block.
pub struct ArchiveOutcome {
    pub saves: Vec<SaveItem>,
    pub hits: Vec<(String, String)>,
    pub block: Option<String>,
}

/// Inspect an archive held in memory: list its members, route each file
/// member to an asset path under its virtual URL, scan text members, and
/// compose the archive report block. `None` when the archive cannot be
/// opened; per-member read errors were already dropped by the readers.
pub fn analyze_archive(
    rs: &Ruleset,
    ext: &str,
    data: &[u8],
    parent_url: &str,
    js_dir: &str,
    assets_dir: &str,
) -> (r: Option<ArchiveOutcome>)
    ensures
        r is Some <==> archive_members_spec(ext@, data@) is Some,
        r matches Some(o) ==> {
            let ms = archive_members_spec(ext@, data@)->Some_0;
            let hits = member_hits(rules_view(rs.rules@), rs.ignore_values.deep_view(), ms);
            &&& saves_view(o.saves@) == member_saves(parent_url@, js_dir@, assets_dir@, ms)
            &&& o.hits.deep_view() == hits
            &&& (o.block is Some <==> hits.len() > 0)
            &&& (o.block matches Some(b) ==> b@ == findings_block_spec(
                parent_url@ + " (архив)"@,
                hits,
            ))
        },
{
    let members: Option<Vec<RawMember>> = if str_eq(ext, "zip") {
        zip_entries(data)
    } else if str_eq(ext, "tar") {
        tar_entries(data)
    } else if str_eq(ext, "gz") || str_eq(ext, "tgz") {
        match gunzip(data) {
            Some(d) => tar_entries(d.as_slice()),
            None => None,
        }
    } else if str_eq(ext, "bz2") {
        match bunzip2(data) {
            Some(d) => tar_entries(d.as_slice()),
            None => None,
        }
    } else if str_eq(ext, "xz") {
        match unxz(data) {
            Some(d) => tar_entries(d.as_slice()),
            None => None,
        }
    } else {
        Some(Vec::new())
    };
    let ms = match members {
        Some(m) => m,
        None => {
            return None;
        },
    };
    let ghost mv = archive_members_spec(ext@, data@)->Some_0;
    proof {
        assert(members_view(ms@) =~= mv);
    }
    let ghost rules = rules_view(rs.rules@);
    let ghost igs = rs.ignore_values.deep_view();
    let mut saves: Vec<SaveItem> = Vec::new();
    let mut hits: Vec<(String, String)> = Vec::new();
    let mut i: usize = 0;
    proof {
        assert(saves_view(saves@) =~= member_saves(parent_url@, js_dir@, assets_dir@, mv.take(0)));
        assert(hits.deep_view() =~= member_hits(rules, igs, mv.take(0)));
    }
    while i < ms.len()
        invariant
            i <= ms@.len(),
            members_view(ms@) == mv,
            rules == rules_view(rs.rules@),
            igs == rs.ignore_values.deep_view(),
            saves_view(saves@) == member_saves(parent_url@, js_dir@, assets_dir@, mv.take(i as int)),
            hits.deep_view() == member_hits(rules, igs, mv.take(i as int)),
        decreases ms@.len() - i,
    {
        proof {
            assert(mv.take(i + 1).drop_last() =~= mv.take(i as int));
            assert(mv.take(i + 1).last() == mv[i as int]);
            assert(mv[i as int] == (ms@[i as int].name@, ms@[i as int].data@, ms@[i as int].is_file));
        }
        let m = &ms[i];
        if m.is_file {
            let mext = member_ext(m.name.as_str());
            let virt = virtual_url(parent_url, m.name.as_str());
            let path = asset_path_from_dirs(virt.as_str(), mext.as_str(), js_dir, assets_dir);
            let ghost saves_before = saves_view(saves@);
            saves.push(SaveItem { path, data: slice_to_vec(m.data.as_slice()) });
            proof {
                assert(saves_view(saves@) =~= saves_before.push(
                    (
                        asset_path_spec(
                            virtual_url_spec(parent_url@, mv[i as int].0),
                            member_ext_spec(mv[i as int].0),
                            js_dir@,
                            assets_dir@,
                        ),
                        mv[i as int].1,
                    ),
                ));
                assert(saves_view(saves@) =~= member_saves(
                    parent_url@,
                    js_dir@,
                    assets_dir@,
                    mv.take(i + 1),
                ));
            }
            let ghost hits_before = hits.deep_view();
            if is_probably_text(m.data.as_slice()) {
                match bytes_to_string(m.data.as_slice()) {
                    Some(text) => {
                        let mut found = scan_patterns(rs, text.as_str());
                        let ghost fv = found.deep_view();
                        hits.append(&mut found);
                        proof {
                            assert(hits.deep_view() =~= hits_before + fv);
                            assert(hits.deep_view() =~= member_hits(rules, igs, mv.take(i + 1)));
                        }
                    },
                    None => {
                        proof {
                            assert(hits.deep_view() =~= member_hits(rules, igs, mv.take(i + 1)));
                        }
                    },
                }
            } else {
                proof {
                    assert(hits.deep_view() =~= member_hits(rules, igs, mv.take(i + 1)));
                }
            }
        } else {
            proof {
                assert(saves_view(saves@) =~= member_saves(
                    parent_url@,
                    js_dir@,
                    assets_dir@,
                    mv.take(i + 1),
                ));
                assert(hits.deep_view() =~= member_hits(rules, igs, mv.take(i + 1)));
            }
        }
        i = i + 1;
    }
    proof {
        assert(mv.take(ms@.len() as int) =~= mv);
    }
    let block: Option<String> = if hits.len() == 0 {
        None
    } else {
        let mut header = String::new();
        header.append(parent_url);
        header.append(" (архив)");
        proof {
            assert(header@ =~= parent_url@ + " (архив)"@);
        }
        Some(findings_block(header.as_str(), &hits))
    };
    Some(ArchiveOutcome { saves, hits, block })
}

} // verus!
