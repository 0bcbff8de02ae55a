//! Icon selection: the battery-tier asset name, the ordered candidate-path
//! list the resolver probes, and the charging-glyph SVG composition done by
//! string surgery.
use vstd::prelude::*;

use crate::text::{
    find_first, find_last, first_occ, last_index_of, last_index_of_char, last_occ,
    lemma_first_occ_none, lemma_first_occ_some, lemma_last_occ_none, lemma_last_occ_some, match_at,
    str_to_chars,
};
use vstd::string::{StrSliceExecFns, StringExecFns};

verus! {

/// The asset name for a battery percentage: >90 the full tier, >74 the
/// three-quarter tier, >49 the half tier, >24 the quarter tier, >9 the
/// warning tier, else the empty tier.
pub open spec fn battery_icon_name_spec(level: u8) -> Seq<char> {
    if level > 90 {
        "battery-100.svg"@
    } else if level > 74 {
        "battery-75.svg"@
    } else if level > 49 {
        "battery-50.svg"@
    } else if level > 24 {
        "battery-25.svg"@
    } else if level > 9 {
        "battery-warn.svg"@
    } else {
        "battery-0.svg"@
    }
}

/// Map a battery percentage to its icon asset name.
pub fn battery_icon_name(level: u8) -> (r: String)
    ensures
        r@ == battery_icon_name_spec(level),
{
    if level > 90 {
        "battery-100.svg".to_owned()
    } else if level > 74 {
        "battery-75.svg".to_owned()
    } else if level > 49 {
        "battery-50.svg".to_owned()
    } else if level > 24 {
        "battery-25.svg".to_owned()
    } else if level > 9 {
        "battery-warn.svg".to_owned()
    } else {
        "battery-0.svg".to_owned()
    }
}

/// The literal relative path callers fall back to when no candidate exists.
pub fn fallback_icon_path(name: &str) -> (r: String)
    ensures
        r@ == "icons/"@ + name@,
{
    let mut r = "icons/".to_owned();
    r.append(name);
    r
}

/// The fixed, ordered prefix of the candidate list: standard theme
/// directories, the local development directory, sandboxed-app directories,
/// and the legacy system directory.
pub open spec fn fixed_candidates(name: Seq<char>) -> Seq<Seq<char>> {
    seq![
        "/usr/share/icons/hicolor/scalable/apps/"@ + name,
        "/usr/share/icons/hicolor/symbolic/apps/"@ + name,
        "/usr/share/icons/hicolor/16x16/apps/"@ + name,
        "/usr/share/icons/hicolor/22x22/apps/"@ + name,
        "/usr/share/icons/hicolor/24x24/apps/"@ + name,
        "/usr/share/icons/hicolor/32x32/apps/"@ + name,
        "/usr/share/icons/hicolor/48x48/apps/"@ + name,
        "/usr/share/icons/hicolor/64x64/apps/"@ + name,
        "/usr/share/icons/hicolor/128x128/apps/"@ + name,
        "/usr/share/icons/hicolor/256x256/apps/"@ + name,
        "icons/"@ + name,
        "bin/icons/"@ + name,
        "/app/bin/icons/"@ + name,
        "/app/share/icons/rivalcfgtray/"@ + name,
        "/app/share/icons/hicolor/scalable/apps/"@ + name,
        "/usr/share/rivalcfgtray/icons/"@ + name,
    ]
}

/// The candidates derived from the running executable's directory and its
/// parent.
pub open spec fn exe_candidates(
    name: Seq<char>,
    exe_dir: Option<Seq<char>>,
    exe_parent: Option<Seq<char>>,
) -> Seq<Seq<char>> {
    (match exe_dir {
        Some(d) => seq![d + "/icons/"@ + name],
        None => Seq::empty(),
    }) + (match exe_parent {
        Some(p) => seq![p + "/icons/"@ + name, p + "/share/icons/rivalcfgtray/"@ + name],
        None => Seq::empty(),
    })
}

/// The candidates from walking the working directory's ancestors, each
/// joined with an `icons` subdirectory.
pub open spec fn ancestor_candidates(name: Seq<char>, dirs: Seq<Seq<char>>) -> Seq<Seq<char>>
    decreases dirs.len(),
{
    if dirs.len() == 0 {
        Seq::empty()
    } else {
        ancestor_candidates(name, dirs.drop_last()) + seq![dirs.last() + "/icons/"@ + name]
    }
}

/// The full ordered candidate list the resolver probes.
pub open spec fn icon_candidates(
    name: Seq<char>,
    exe_dir: Option<Seq<char>>,
    exe_parent: Option<Seq<char>>,
    ancestors: Seq<Seq<char>>,
) -> Seq<Seq<char>> {
    fixed_candidates(name) + exe_candidates(name, exe_dir, exe_parent) + ancestor_candidates(
        name,
        ancestors,
    )
}

/// Concatenate a directory prefix and a file name.
fn join2(a: &str, b: &str) -> (r: String)
    ensures
        r@ == a@ + b@,
{
    let mut r = a.to_owned();
    r.append(b);
    r
}

/// Concatenate a directory, a separator-joined subpath and a file name.
fn join3(a: &str, b: &str, c: &str) -> (r: String)
    ensures
        r@ == a@ + b@ + c@,
{
    let mut r = a.to_owned();
    r.append(b);
    r.append(c);
    r
}

/// Build the ordered candidate-path list for an asset name, given the
/// executable's directory, its parent, and the working directory's
/// ancestors (nearest first), as the caller observed them.
pub fn icon_candidate_paths(
    name: &str,
    exe_dir: Option<&String>,
    exe_parent: Option<&String>,
    cwd_ancestors: &Vec<String>,
) -> (r: Vec<String>)
    ensures
        r.deep_view() == icon_candidates(
            name@,
            exe_dir.deep_view(),
            exe_parent.deep_view(),
            cwd_ancestors.deep_view(),
        ),
{
    let mut r: Vec<String> = Vec::new();
    r.push(join2("/usr/share/icons/hicolor/scalable/apps/", name));
    r.push(join2("/usr/share/icons/hicolor/symbolic/apps/", name));
    r.push(join2("/usr/share/icons/hicolor/16x16/apps/", name));
    r.push(join2("/usr/share/icons/hicolor/22x22/apps/", name));
    r.push(join2("/usr/share/icons/hicolor/24x24/apps/", name));
    r.push(join2("/usr/share/icons/hicolor/32x32/apps/", name));
    r.push(join2("/usr/share/icons/hicolor/48x48/apps/", name));
    r.push(join2("/usr/share/icons/hicolor/64x64/apps/", name));
    r.push(join2("/usr/share/icons/hicolor/128x128/apps/", name));
    r.push(join2("/usr/share/icons/hicolor/256x256/apps/", name));
    r.push(join2("icons/", name));
    r.push(join2("bin/icons/", name));
    r.push(join2("/app/bin/icons/", name));
    r.push(join2("/app/share/icons/rivalcfgtray/", name));
    r.push(join2("/app/share/icons/hicolor/scalable/apps/", name));
    r.push(join2("/usr/share/rivalcfgtray/icons/", name));
    proof {
        assert(r.deep_view() =~= fixed_candidates(name@));
    }
    let ghost fixed = r.deep_view();
    if let Some(d) = exe_dir {
        r.push(join3(d.as_str(), "/icons/", name));
    }
    if let Some(p) = exe_parent {
        r.push(join3(p.as_str(), "/icons/", name));
        r.push(join3(p.as_str(), "/share/icons/rivalcfgtray/", name));
    }
    proof {
        assert(r.deep_view() =~= fixed + exe_candidates(
            name@,
            exe_dir.deep_view(),
            exe_parent.deep_view(),
        ));
    }
    let ghost upto_exe = r.deep_view();
    let mut k: usize = 0;
    while k < cwd_ancestors.len()
        invariant
            k <= cwd_ancestors@.len(),
            r.deep_view() == upto_exe + ancestor_candidates(
                name@,
                cwd_ancestors.deep_view().subrange(0, k as int),
            ),
        decreases cwd_ancestors@.len() - k,
    {
        let ghost pre = r.deep_view();
        let item = join3(cwd_ancestors[k].as_str(), "/icons/", name);
        let ghost iv = item@;
        r.push(item);
        proof {
            let dv = cwd_ancestors.deep_view();
            assert(r.deep_view() =~= pre.push(iv));
            assert(dv.subrange(0, k + 1).drop_last() =~= dv.subrange(0, k as int));
            assert(dv.subrange(0, k + 1).last() == dv[k as int]);
            assert(ancestor_candidates(name@, dv.subrange(0, k + 1)) == ancestor_candidates(
                name@,
                dv.subrange(0, k as int),
            ) + seq![dv[k as int] + "/icons/"@ + name@]);
            assert(dv[k as int] == cwd_ancestors@[k as int]@);
            assert(iv == dv[k as int] + "/icons/"@ + name@);
            assert(r.deep_view() =~= upto_exe + ancestor_candidates(name@, dv.subrange(0, k + 1)));
        }
        k = k + 1;
    }
    proof {
        assert(cwd_ancestors.deep_view().subrange(0, cwd_ancestors@.len() as int) =~= cwd_ancestors
            .deep_view());
        assert(r.deep_view() =~= icon_candidates(
            name@,
            exe_dir.deep_view(),
            exe_parent.deep_view(),
            cwd_ancestors.deep_view(),
        ));
    }
    r
}

/// The bare glyph fragment extracted from a charging SVG document: content
/// before the first `<path` occurrence and from the last `</svg>` occurrence
/// on is discarded. This is a textual transform, not an XML-aware one: a
/// document structured otherwise (several `path` elements, namespaced tags)
/// may yield a corrupt fragment, a documented limitation.
pub open spec fn extract_fragment(charging: Seq<char>) -> Seq<char> {
    let s1 = match first_occ(charging, "<path"@) {
        Some(i) => charging.subrange(i, charging.len() as int),
        None => charging,
    };
    match last_occ(s1, "</svg>"@) {
        Some(j) => s1.subrange(0, j),
        None => s1,
    }
}

/// The fragment and a newline inserted immediately before the first closing
/// `</svg>` tag of the battery document; a document without that tag is
/// left unchanged.
pub open spec fn insert_fragment(battery: Seq<char>, fragment: Seq<char>) -> Seq<char> {
    match first_occ(battery, "</svg>"@) {
        Some(i) => battery.subrange(0, i) + fragment + "\n"@ + battery.subrange(
            i,
            battery.len() as int,
        ),
        None => battery,
    }
}

/// What compositing produces from the two documents' texts.
pub open spec fn composite_svg_spec(battery: Seq<char>, charging: Seq<char>) -> Seq<char> {
    insert_fragment(battery, extract_fragment(charging))
}

/// Overlay the charging glyph onto the battery glyph by string-level SVG
/// surgery, returning the composite document's text.
pub fn composite_charging_svg(battery_doc: &str, charging_doc: &str) -> (r: String)
    ensures
        r@ == composite_svg_spec(battery_doc@, charging_doc@),
{
    let cc = str_to_chars(charging_doc);
    let pathpat = str_to_chars("<path");
    let svgpat = str_to_chars("</svg>");
    let fs: usize = match find_first(&cc, &pathpat) {
        Some(i) => {
            proof {
                lemma_first_occ_some(cc@, pathpat@, i as int);
            }
            i
        },
        None => {
            proof {
                assert(forall|j: int| !match_at(cc@, pathpat@, j));
                lemma_first_occ_none(cc@, pathpat@);
            }
            0
        },
    };
    let ghost s1 = match first_occ(cc@, "<path"@) {
        Some(i) => cc@.subrange(i, cc@.len() as int),
        None => cc@,
    };
    proof {
        assert(s1 =~= cc@.subrange(fs as int, cc@.len() as int));
    }
    let fe: usize = match find_last(&cc, &svgpat) {
        Some(i) if i >= fs => {
            proof {
                let rel = i - fs;
                assert(match_at(s1, svgpat@, rel)) by {
                    assert(s1.subrange(rel, rel + svgpat@.len()) =~= cc@.subrange(
                        i as int,
                        i + svgpat@.len(),
                    ));
                }
                assert forall|j: int| rel < j implies !match_at(s1, svgpat@, j) by {
                    if match_at(s1, svgpat@, j) {
                        assert(match_at(cc@, svgpat@, fs + j)) by {
                            assert(cc@.subrange(fs + j, fs + j + svgpat@.len()) =~= s1.subrange(
                                j,
                                j + svgpat@.len(),
                            ));
                        }
                    }
                }
                lemma_last_occ_some(s1, svgpat@, rel);
            }
            i
        },
        Some(i) => {
            proof {
                assert forall|j: int| !match_at(s1, svgpat@, j) by {
                    if match_at(s1, svgpat@, j) {
                        assert(match_at(cc@, svgpat@, fs + j)) by {
                            assert(cc@.subrange(fs + j, fs + j + svgpat@.len()) =~= s1.subrange(
                                j,
                                j + svgpat@.len(),
                            ));
                        }
                    }
                }
                lemma_last_occ_none(s1, svgpat@);
            }
            cc.len()
        },
        None => {
            proof {
                assert forall|j: int| !match_at(s1, svgpat@, j) by {
                    if match_at(s1, svgpat@, j) {
                        assert(match_at(cc@, svgpat@, fs + j)) by {
                            assert(cc@.subrange(fs + j, fs + j + svgpat@.len()) =~= s1.subrange(
                                j,
                                j + svgpat@.len(),
                            ));
                        }
                    }
                }
                lemma_last_occ_none(s1, svgpat@);
            }
            cc.len()
        },
    };
    let ghost fragment = extract_fragment(charging_doc@);
    proof {
        assert(fragment =~= cc@.subrange(fs as int, fe as int));
    }
    let bc = str_to_chars(battery_doc);
    match find_first(&bc, &svgpat) {
        Some(i) => {
            proof {
                lemma_first_occ_some(bc@, svgpat@, i as int);
            }
            let mut r = battery_doc.substring_char(0, i).to_owned();
            r.append(charging_doc.substring_char(fs, fe));
            r.append("\n");
            r.append(battery_doc.substring_char(i, bc.len()));
            r
        },
        None => {
            proof {
                assert(forall|j: int| !match_at(bc@, svgpat@, j));
                lemma_first_occ_none(bc@, svgpat@);
            }
            battery_doc.to_owned()
        },
    }
}

/// The final path component of `p`: what follows the last separator.
pub open spec fn file_name_of(p: Seq<char>) -> Seq<char> {
    p.subrange(last_index_of(p, '/') + 1, p.len() as int)
}

/// The stem of the final path component: the component up to its last dot,
/// whole when the only dot leads it or none is there, and the conventional
/// name "icon" when the path has no final component at all.
pub open spec fn file_stem_of(p: Seq<char>) -> Seq<char> {
    let f = file_name_of(p);
    if f.len() == 0 {
        "icon"@
    } else {
        let d = last_index_of(f, '.');
        if d > 0 {
            f.subrange(0, d)
        } else {
            f
        }
    }
}

/// The fixed name of the composite temp file for a battery icon path: the
/// icon's stem with a `_charging.svg` suffix. Deterministic per battery
/// tier, so a later composition overwrites the earlier file.
pub open spec fn charging_temp_name_spec(p: Seq<char>) -> Seq<char> {
    file_stem_of(p) + "_charging.svg"@
}

/// Derive the composite temp file's name from the battery icon's path.
pub fn charging_temp_name(battery_path: &str) -> (r: String)
    ensures
        r@ == charging_temp_name_spec(battery_path@),
{
    let cs = str_to_chars(battery_path);
    proof {
        assert(cs@.subrange(0, cs@.len() as int) =~= cs@);
    }
    let a: usize = match last_index_of_char(&cs, cs.len(), '/') {
        Some(i) => i + 1,
        None => 0,
    };
    if a == cs.len() {
        proof {
            assert(file_name_of(cs@).len() == 0);
        }
        let mut r = "icon".to_owned();
        r.append("_charging.svg");
        return r;
    }
    let fstr = battery_path.substring_char(a, cs.len());
    let fv = str_to_chars(fstr);
    proof {
        assert(fv@ =~= file_name_of(cs@));
        assert(fv@.subrange(0, fv@.len() as int) =~= fv@);
    }
    let stem = match last_index_of_char(&fv, fv.len(), '.') {
        Some(k) if k > 0 => fstr.substring_char(0, k),
        _ => fstr,
    };
    let mut r = stem.to_owned();
    r.append("_charging.svg");
    r
}

/// The first candidate the caller found to exist, by index: the resolver's
/// decision given the observed existence of each candidate.
pub fn first_existing(paths: &Vec<String>, exists: &Vec<bool>) -> (r: Option<usize>)
    requires
        exists@.len() == paths@.len(),
    ensures
        match r {
            Some(i) => i < paths@.len() && exists@[i as int] && forall|j: int|
                0 <= j < i ==> !exists@[j],
            None => forall|j: int| 0 <= j < exists@.len() ==> !exists@[j],
        },
{
    let mut i: usize = 0;
    while i < exists.len()
        invariant
            exists@.len() == paths@.len(),
            i <= exists@.len(),
            forall|j: int| 0 <= j < i ==> !exists@[j],
        decreases exists@.len() - i,
    {
        if exists[i] {
            return Some(i);
        }
        i = i + 1;
    }
    None
}

} // verus!
