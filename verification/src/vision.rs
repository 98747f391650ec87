//! The boundary data of the screenshot classification collaborator: its
//! label set, which files count as images, and the header of the CSV report
//! it writes. The inference itself runs outside the library.

use vstd::prelude::*;
use vstd::string::StringExecFns;
use vstd::string::StrSliceExecFns;
use crate::strutil::str_eq;
use crate::strutil::to_lower;
use crate::strutil::to_lower_exec;
use crate::urlparse::after_last;
use crate::urlparse::after_last_exec;
use crate::urlparse::contains_char;
use crate::urlparse::contains_char_exec;

verus! {

/// The class labels of a classification run, in output order.
pub struct Labels(pub Vec<String>);

pub open spec fn eyeballer_labels() -> Seq<Seq<char>> {
    seq!["boring"@, "interesting"@, "login"@, "error"@, "other"@]
}

impl Labels {
    /// The stock label set of the screenshot classifier.
    pub fn eyeballer_default() -> (r: Labels)
        ensures
            r.0.deep_view() == eyeballer_labels(),
    {
        let mut v: Vec<String> = Vec::new();
        v.push(lit_string("boring"));
        v.push(lit_string("interesting"));
        v.push(lit_string("login"));
        v.push(lit_string("error"));
        v.push(lit_string("other"));
        proof {
            assert(v.deep_view() =~= eyeballer_labels());
        }
        Labels(v)
    }
}

fn lit_string(s: &str) -> (r: String)
    ensures
        r@ == s@,
{
    let mut out = String::new();
    out.append(s);
    proof {
        assert(Seq::<char>::empty() + s@ =~= s@);
    }
    out
}

/// Whether a file name has an image extension: a dot not in first position
/// with `png`, `jpg`, `jpeg`, `bmp` or `webp` (lowercased) after its last
/// occurrence.
pub open spec fn is_image_name_spec(name: Seq<char>) -> bool {
    let ext = to_lower(after_last(name, '.'));
    &&& contains_char(name, '.')
    &&& after_last(name, '.').len() != name.len() - 1
    &&& (ext == "png"@ || ext == "jpg"@ || ext == "jpeg"@ || ext == "bmp"@ || ext == "webp"@)
}

pub fn is_image_name(name: &str) -> (r: bool)
    ensures
        r == is_image_name_spec(name@),
{
    if !contains_char_exec(name, '.') {
        return false;
    }
    let tail = after_last_exec(name, '.');
    if tail.as_str().unicode_len() == name.unicode_len() - 1 {
        return false;
    }
    let ext = to_lower_exec(tail.as_str());
    let e = ext.as_str();
    str_eq(e, "png") || str_eq(e, "jpg") || str_eq(e, "jpeg") || str_eq(e, "bmp") || str_eq(
        e,
        "webp",
    )
}

/// The header row of the classification CSV: fixed columns, then one
/// probability column per label.
pub open spec fn csv_header_spec(labels: Seq<Seq<char>>) -> Seq<Seq<char>>
    decreases labels.len(),
{
    if labels.len() == 0 {
        seq!["file"@, "top_label"@, "top_prob"@]
    } else {
        csv_header_spec(labels.drop_last()).push("p_"@ + labels.last())
    }
}

pub fn csv_header(labels: &Labels) -> (r: Vec<String>)
    ensures
        r.deep_view() == csv_header_spec(labels.0.deep_view()),
{
    let ghost lv = labels.0.deep_view();
    let mut out: Vec<String> = Vec::new();
    out.push(lit_string("file"));
    out.push(lit_string("top_label"));
    out.push(lit_string("top_prob"));
    proof {
        assert(out.deep_view() =~= csv_header_spec(lv.take(0)));
    }
    let mut i: usize = 0;
    while i < labels.0.len()
        invariant
            i <= labels.0@.len(),
            lv == labels.0.deep_view(),
            out.deep_view() == csv_header_spec(lv.take(i as int)),
        decreases labels.0@.len() - i,
    {
        let mut col = String::new();
        col.append("p_");
        col.append(labels.0[i].as_str());
        proof {
            assert(col@ =~= "p_"@ + lv[i as int]);
            assert(lv.take(i + 1).drop_last() =~= lv.take(i as int));
            assert(lv.take(i + 1).last() == lv[i as int]);
        }
        let ghost before = out.deep_view();
        out.push(col);
        proof {
            assert(out.deep_view() =~= before.push("p_"@ + lv[i as int]));
        }
        i = i + 1;
    }
    proof {
        assert(lv.take(labels.0@.len() as int) =~= lv);
    }
    out
}

} // verus!
