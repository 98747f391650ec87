//! The per-domain workspace layout and the asset router.
//!
//! `Paths` names every file and directory of a scan's workspace. The asset
//! router maps a URL and its detected extension to the path the bytes are
//! persisted at: a dedicated bucket for scripts, one directory per known
//! text or archive extension, and `bin` for everything else. Every routed
//! path stays under the workspace by construction.

use vstd::prelude::*;
use vstd::string::StringExecFns;
use crate::strutil::str_eq;
use crate::fingerprint::sanitize_spec;
use crate::fingerprint::sanitize_filename;
use crate::fingerprint::lemma_sanitize_no_slash;
use crate::fingerprint::no_slash;

verus! {

/// Extensions treated as text for routing.
pub open spec fn is_text_ext_spec(e: Seq<char>) -> bool {
    ||| e == "html"@
    ||| e == "htm"@
    ||| e == "shtml"@
    ||| e == "xhtml"@
    ||| e == "php"@
    ||| e == "asp"@
    ||| e == "aspx"@
    ||| e == "jsp"@
    ||| e == "txt"@
    ||| e == "js"@
    ||| e == "json"@
    ||| e == "xml"@
    ||| e == "csv"@
    ||| e == "ini"@
    ||| e == "conf"@
    ||| e == "config"@
    ||| e == "env"@
    ||| e == "yaml"@
    ||| e == "yml"@
    ||| e == "log"@
    ||| e == "bak"@
    ||| e == "old"@
    ||| e == "sql"@
}

/// Extensions the archive inspector can open.
pub open spec fn is_archive_ext_spec(e: Seq<char>) -> bool {
    ||| e == "zip"@
    ||| e == "tar"@
    ||| e == "tgz"@
    ||| e == "gz"@
    ||| e == "bz2"@
    ||| e == "xz"@
}

/// Extensions whose bodies are HTML pages.
pub open spec fn is_html_ext_spec(e: Seq<char>) -> bool {
    ||| e == "html"@
    ||| e == "htm"@
    ||| e == "shtml"@
    ||| e == "xhtml"@
    ||| e == "php"@
    ||| e == "asp"@
    ||| e == "aspx"@
    ||| e == "jsp"@
}

pub fn is_text_ext(e: &str) -> (r: bool)
    ensures
        r == is_text_ext_spec(e@),
{
    str_eq(e, "html") || str_eq(e, "htm") || str_eq(e, "shtml") || str_eq(e, "xhtml") || str_eq(
        e,
        "php",
    ) || str_eq(e, "asp") || str_eq(e, "aspx") || str_eq(e, "jsp") || str_eq(e, "txt") || str_eq(
        e,
        "js",
    ) || str_eq(e, "json") || str_eq(e, "xml") || str_eq(e, "csv") || str_eq(e, "ini") || str_eq(
        e,
        "conf",
    ) || str_eq(e, "config") || str_eq(e, "env") || str_eq(e, "yaml") || str_eq(e, "yml") || str_eq(
        e,
        "log",
    ) || str_eq(e, "bak") || str_eq(e, "old") || str_eq(e, "sql")
}

pub fn is_archive_ext(e: &str) -> (r: bool)
    ensures
        r == is_archive_ext_spec(e@),
{
    str_eq(e, "zip") || str_eq(e, "tar") || str_eq(e, "tgz") || str_eq(e, "gz") || str_eq(e, "bz2")
        || str_eq(e, "xz")
}

pub fn is_html_ext(e: &str) -> (r: bool)
    ensures
        r == is_html_ext_spec(e@),
{
    str_eq(e, "html") || str_eq(e, "htm") || str_eq(e, "shtml") || str_eq(e, "xhtml") || str_eq(
        e,
        "php",
    ) || str_eq(e, "asp") || str_eq(e, "aspx") || str_eq(e, "jsp")
}

/// The files and directories of one domain's workspace.
#[derive(Clone)]
pub struct Paths {
    pub base: String,
    pub out_txt: String,
    pub subdomains_txt: String,
    pub screenshots_dir: String,
    pub jsscripts_dir: String,
    pub sensitive_info_txt: String,
    pub assets_dir: String,
}

impl Paths {
    /// The workspace layout rooted at a directory named after the domain.
    /// Creating the directories on disk is the caller's task.
    pub fn new(domain: &str) -> (r: Paths)
        ensures
            r.base@ == domain@,
            r.out_txt@ == domain@ + "/out.txt"@,
            r.subdomains_txt@ == domain@ + "/subdomains.txt"@,
            r.screenshots_dir@ == domain@ + "/screenshots"@,
            r.jsscripts_dir@ == domain@ + "/JSscripts"@,
            r.sensitive_info_txt@ == domain@ + "/sensitive_info.txt"@,
            r.assets_dir@ == domain@ + "/assets"@,
    {
        let mut base = String::new();
        base.append(domain);
        let mut out_txt = String::new();
        out_txt.append(domain);
        out_txt.append("/out.txt");
        let mut subdomains_txt = String::new();
        subdomains_txt.append(domain);
        subdomains_txt.append("/subdomains.txt");
        let mut screenshots_dir = String::new();
        screenshots_dir.append(domain);
        screenshots_dir.append("/screenshots");
        let mut jsscripts_dir = String::new();
        jsscripts_dir.append(domain);
        jsscripts_dir.append("/JSscripts");
        let mut sensitive_info_txt = String::new();
        sensitive_info_txt.append(domain);
        sensitive_info_txt.append("/sensitive_info.txt");
        let mut assets_dir = String::new();
        assets_dir.append(domain);
        assets_dir.append("/assets");
        proof {
            assert(Seq::<char>::empty() + domain@ =~= domain@);
            assert(Seq::<char>::empty() + domain@ + "/out.txt"@ =~= domain@ + "/out.txt"@);
            assert(Seq::<char>::empty() + domain@ + "/subdomains.txt"@ =~= domain@
                + "/subdomains.txt"@);
            assert(Seq::<char>::empty() + domain@ + "/screenshots"@ =~= domain@ + "/screenshots"@);
            assert(Seq::<char>::empty() + domain@ + "/JSscripts"@ =~= domain@ + "/JSscripts"@);
            assert(Seq::<char>::empty() + domain@ + "/sensitive_info.txt"@ =~= domain@
                + "/sensitive_info.txt"@);
            assert(Seq::<char>::empty() + domain@ + "/assets"@ =~= domain@ + "/assets"@);
        }
        Paths { base, out_txt, subdomains_txt, screenshots_dir, jsscripts_dir, sensitive_info_txt, assets_dir }
    }
}

/// Read access to the workspace directories the router writes under.
pub trait PathsLike {
    spec fn spec_screenshots_dir(&self) -> Seq<char>;

    spec fn spec_jsscripts_dir(&self) -> Seq<char>;

    spec fn spec_assets_dir(&self) -> Seq<char>;

    fn screenshots_dir(&self) -> (r: &str)
        ensures
            r@ == self.spec_screenshots_dir(),
    ;

    fn jsscripts_dir(&self) -> (r: &str)
        ensures
            r@ == self.spec_jsscripts_dir(),
    ;

    fn assets_dir(&self) -> (r: &str)
        ensures
            r@ == self.spec_assets_dir(),
    ;
}

impl PathsLike for Paths {
    open spec fn spec_screenshots_dir(&self) -> Seq<char> {
        self.screenshots_dir@
    }

    open spec fn spec_jsscripts_dir(&self) -> Seq<char> {
        self.jsscripts_dir@
    }

    open spec fn spec_assets_dir(&self) -> Seq<char> {
        self.assets_dir@
    }

    fn screenshots_dir(&self) -> &str {
        self.screenshots_dir.as_str()
    }

    fn jsscripts_dir(&self) -> &str {
        self.jsscripts_dir.as_str()
    }

    fn assets_dir(&self) -> &str {
        self.assets_dir.as_str()
    }
}

/// The directory under `assets/` for an extension: the extension itself for
/// known text and archive types, `bin` otherwise.
pub open spec fn asset_subdir(ext: Seq<char>) -> Seq<char> {
    if is_text_ext_spec(ext) || is_archive_ext_spec(ext) {
        ext
    } else {
        "bin"@
    }
}

/// The asset path under `assets/` for a URL and extension.
pub open spec fn bucket_path_spec(url: Seq<char>, ext: Seq<char>, assets_dir: Seq<char>) -> Seq<
    char,
> {
    assets_dir + "/"@ + asset_subdir(ext) + "/"@ + sanitize_spec(url) + "."@ + ext
}

/// Where a resource is persisted: the scripts bucket for `js`, otherwise an
/// extension bucket under `assets/`.
pub open spec fn asset_path_spec(
    url: Seq<char>,
    ext: Seq<char>,
    js_dir: Seq<char>,
    assets_dir: Seq<char>,
) -> Seq<char> {
    if ext == "js"@ {
        js_dir + "/"@ + sanitize_spec(url) + ".js"@
    } else {
        bucket_path_spec(url, ext, assets_dir)
    }
}

/// The asset route for a URL and extension, over plain directory names; the
/// archive inspector routes members through this, so `js` members reach the
/// scripts bucket too.
pub fn asset_path_from_dirs(url: &str, ext: &str, js_dir: &str, assets_dir: &str) -> (r: String)
    ensures
        r@ == asset_path_spec(url@, ext@, js_dir@, assets_dir@),
{
    let safe = sanitize_filename(url);
    if str_eq(ext, "js") {
        let mut out = String::new();
        out.append(js_dir);
        out.append("/");
        out.append(safe.as_str());
        out.append(".js");
        proof {
            assert(out@ =~= js_dir@ + "/"@ + sanitize_spec(url@) + ".js"@);
        }
        out
    } else {
        let mut out = String::new();
        out.append(assets_dir);
        out.append("/");
        if is_text_ext(ext) || is_archive_ext(ext) {
            out.append(ext);
        } else {
            out.append("bin");
        }
        out.append("/");
        out.append(safe.as_str());
        out.append(".");
        out.append(ext);
        proof {
            assert(out@ =~= bucket_path_spec(url@, ext@, assets_dir@));
        }
        out
    }
}

/// The full asset route for a resource under a workspace.
pub fn asset_path_for<P: PathsLike>(url: &str, ext: &str, paths: &P) -> (r: String)
    ensures
        r@ == asset_path_spec(url@, ext@, paths.spec_jsscripts_dir(), paths.spec_assets_dir()),
{
    asset_path_from_dirs(url, ext, paths.jsscripts_dir(), paths.assets_dir())
}

/// Every routed path lies directly under the scripts bucket or under one
/// subdirectory of `assets/`: after the directory prefix comes exactly one
/// further directory level (none for scripts), and the file name holds no
/// slash and at least three characters, so it is never `.`, `..` or empty.
pub proof fn lemma_asset_path_containment(
    url: Seq<char>,
    ext: Seq<char>,
    js_dir: Seq<char>,
    assets_dir: Seq<char>,
)
    requires
        no_slash(ext),
    ensures
        ({
            let p = asset_path_spec(url, ext, js_dir, assets_dir);
            if ext == "js"@ {
                let fname = p.skip(js_dir.len() as int + 1);
                &&& p == js_dir + "/"@ + fname
                &&& no_slash(fname)
                &&& fname.len() >= 3
            } else {
                let sub = asset_subdir(ext);
                let fname = p.skip(assets_dir.len() as int + 1 + sub.len() as int + 1);
                &&& p == assets_dir + "/"@ + sub + "/"@ + fname
                &&& no_slash(sub)
                &&& 1 <= sub.len() <= 6
                &&& no_slash(fname)
                &&& fname.len() >= 3
            }
        }),
{
    lemma_sanitize_no_slash(url);
    reveal_strlit("/");
    reveal_strlit(".");
    let safe = sanitize_spec(url);
    if ext == "js"@ {
        reveal_strlit(".js");
        reveal_strlit("js");
        let p = js_dir + "/"@ + safe + ".js"@;
        let fname = p.skip(js_dir.len() as int + 1);
        assert(fname =~= safe + ".js"@);
        assert(p =~= js_dir + "/"@ + fname);
        assert(no_slash(fname)) by {
            assert forall|i: int| 0 <= i < fname.len() implies #[trigger] fname[i] != '/' by {
                if i < safe.len() {
                    assert(fname[i] == safe[i]);
                } else {
                    assert(fname[i] == ".js"@[i - safe.len()]);
                }
            }
        }
    } else {
        let sub = asset_subdir(ext);
        let p = bucket_path_spec(url, ext, assets_dir);
        let fname0 = safe + "."@ + ext;
        assert(p =~= assets_dir + "/"@ + sub + "/"@ + fname0);
        let fname = p.skip(assets_dir.len() as int + 1 + sub.len() as int + 1);
        assert(fname =~= fname0);
        assert(no_slash(fname0)) by {
            assert forall|i: int| 0 <= i < fname0.len() implies #[trigger] fname0[i] != '/' by {
                if i < safe.len() {
                    assert(fname0[i] == safe[i]);
                } else if i == safe.len() {
                    assert(fname0[i] == "."@[0]);
                } else {
                    assert(fname0[i] == ext[i - safe.len() - 1]);
                }
            }
        }
        if is_text_ext_spec(ext) || is_archive_ext_spec(ext) {
            reveal_strlit("html");
            reveal_strlit("htm");
            reveal_strlit("shtml");
            reveal_strlit("xhtml");
            reveal_strlit("php");
            reveal_strlit("asp");
            reveal_strlit("aspx");
            reveal_strlit("jsp");
            reveal_strlit("txt");
            reveal_strlit("js");
            reveal_strlit("json");
            reveal_strlit("xml");
            reveal_strlit("csv");
            reveal_strlit("ini");
            reveal_strlit("conf");
            reveal_strlit("config");
            reveal_strlit("env");
            reveal_strlit("yaml");
            reveal_strlit("yml");
            reveal_strlit("log");
            reveal_strlit("bak");
            reveal_strlit("old");
            reveal_strlit("sql");
            reveal_strlit("zip");
            reveal_strlit("tar");
            reveal_strlit("tgz");
            reveal_strlit("gz");
            reveal_strlit("bz2");
            reveal_strlit("xz");
            assert(1 <= sub.len() <= 6);
        } else {
            reveal_strlit("bin");
            assert(1 <= sub.len() <= 6);
        }
    }
}

} // verus!
