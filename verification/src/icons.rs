//! The icon resolver's preference chain.
//!
//! Resolving a symbolic icon name to a concrete file goes through a fixed
//! preference order; the filesystem and theme lookups themselves are a
//! collaborator's work. This module builds the ordered list of lookups to
//! try, and picks the first lookup that hit.

use vstd::prelude::*;
use vstd::string::*;
use crate::text::{spec_starts_with, str_starts_with};

verus! {

/// One lookup of the preference chain.
#[derive(Debug)]
pub enum IconCandidate {
    /// Test whether this very file exists.
    File { path: String },
    /// Ask the icon theme collaborator: an icon name at a pixel size,
    /// scalable or raster, constrained to a theme or unconstrained.
    Lookup { name: String, theme: Option<String>, size: u32, scalable: bool },
    /// Scan one sandboxed-app-format icon export directory for the name,
    /// scalable or at a pixel size.
    ExportScan { dir: String, name: String, size: u32, scalable: bool },
}

pub ghost enum IconCandidateV {
    File { path: Seq<char> },
    Lookup { name: Seq<char>, theme: Option<Seq<char>>, size: u32, scalable: bool },
    ExportScan { dir: Seq<char>, name: Seq<char>, size: u32, scalable: bool },
}

impl View for IconCandidate {
    type V = IconCandidateV;

    open spec fn view(&self) -> IconCandidateV {
        match self {
            IconCandidate::File { path } => IconCandidateV::File { path: path@ },
            IconCandidate::Lookup { name, theme, size, scalable } => IconCandidateV::Lookup {
                name: name@,
                theme: theme.deep_view(),
                size: *size,
                scalable: *scalable,
            },
            IconCandidate::ExportScan { dir, name, size, scalable } => IconCandidateV::ExportScan {
                dir: dir@,
                name: name@,
                size: *size,
                scalable: *scalable,
            },
        }
    }
}

pub open spec fn candidates_view(s: Seq<IconCandidate>) -> Seq<IconCandidateV> {
    s.map_values(|c: IconCandidate| c@)
}

/// The fixed descending raster sizes the resolver sweeps.
pub open spec fn spec_icon_sizes() -> Seq<u32> {
    seq![512u32, 256u32, 128u32, 96u32, 64u32, 48u32, 32u32, 24u32, 16u32]
}

fn icon_sizes() -> (r: Vec<u32>)
    ensures
        r@ =~= spec_icon_sizes(),
{
    let mut r: Vec<u32> = Vec::new();
    r.push(512);
    r.push(256);
    r.push(128);
    r.push(96);
    r.push(64);
    r.push(48);
    r.push(32);
    r.push(24);
    r.push(16);
    r
}

/// Theme (or unconstrained) raster lookups over a size list.
pub open spec fn spec_size_lookups(
    name: Seq<char>,
    theme: Option<Seq<char>>,
    sizes: Seq<u32>,
) -> Seq<IconCandidateV> {
    sizes.map_values(
        |s: u32| IconCandidateV::Lookup { name: name, theme: theme, size: s, scalable: false },
    )
}

/// Export-directory scans over a size list.
pub open spec fn spec_export_scans(
    dir: Seq<char>,
    name: Seq<char>,
    sizes: Seq<u32>,
) -> Seq<IconCandidateV> {
    sizes.map_values(
        |s: u32| IconCandidateV::ExportScan { dir: dir, name: name, size: s, scalable: false },
    )
}

/// Direct file guesses in the conventional pixmap directories: per
/// directory, one guess for each of the scalable, raster and legacy
/// bitmap extensions.
pub open spec fn spec_pixmap_guesses(
    dirs: Seq<Seq<char>>,
    name: Seq<char>,
) -> Seq<IconCandidateV>
    decreases dirs.len(),
{
    if dirs.len() == 0 {
        Seq::empty()
    } else {
        seq![
            IconCandidateV::File { path: dirs[0] + "/"@ + name + ".svg"@ },
            IconCandidateV::File { path: dirs[0] + "/"@ + name + ".png"@ },
            IconCandidateV::File { path: dirs[0] + "/"@ + name + ".xpm"@ },
        ] + spec_pixmap_guesses(dirs.drop_first(), name)
    }
}

/// All scans of the export directories: per directory, scalable first,
/// then the descending sizes.
pub open spec fn spec_all_export_scans(
    dirs: Seq<Seq<char>>,
    name: Seq<char>,
) -> Seq<IconCandidateV>
    decreases dirs.len(),
{
    if dirs.len() == 0 {
        Seq::empty()
    } else {
        seq![
            IconCandidateV::ExportScan { dir: dirs[0], name: name, size: 0u32, scalable: true },
        ] + spec_export_scans(dirs[0], name, spec_icon_sizes()) + spec_all_export_scans(
            dirs.drop_first(),
            name,
        )
    }
}

/// The whole preference chain for one icon name: the name itself when it
/// is already an absolute path; a scalable theme lookup; the theme raster
/// sweep; the same sweep without a theme constraint; direct guesses in the
/// pixmap directories by extension; then the export directory scans.
pub open spec fn spec_icon_plan(
    name: Seq<char>,
    theme: Seq<char>,
    pixmap_dirs: Seq<Seq<char>>,
    export_dirs: Seq<Seq<char>>,
) -> Seq<IconCandidateV> {
    let head: Seq<IconCandidateV> = if spec_starts_with(name, "/"@) {
        seq![IconCandidateV::File { path: name }]
    } else {
        Seq::empty()
    };
    head + seq![
        IconCandidateV::Lookup {
            name: name,
            theme: Option::Some(theme),
            size: 0u32,
            scalable: true,
        },
    ] + spec_size_lookups(name, Option::Some(theme), spec_icon_sizes()) + spec_size_lookups(
        name,
        Option::None,
        spec_icon_sizes(),
    ) + spec_pixmap_guesses(pixmap_dirs, name) + spec_all_export_scans(export_dirs, name)
}

/// Builds the ordered lookup plan for an icon name.
pub fn icon_candidates(
    name: &str,
    theme: &str,
    pixmap_dirs: &Vec<String>,
    export_dirs: &Vec<String>,
) -> (r: Vec<IconCandidate>)
    ensures
        candidates_view(r@) == spec_icon_plan(
            name@,
            theme@,
            pixmap_dirs.deep_view(),
            export_dirs.deep_view(),
        ),
{
    let ghost pv = pixmap_dirs.deep_view();
    let ghost dv = export_dirs.deep_view();
    let ghost goal = spec_icon_plan(name@, theme@, pv, dv);
    let ghost sz = spec_icon_sizes();
    let mut r: Vec<IconCandidate> = Vec::new();
    if str_starts_with(name, "/") {
        r.push(IconCandidate::File { path: name.to_owned() });
    }
    r.push(
        IconCandidate::Lookup {
            name: name.to_owned(),
            theme: Some(theme.to_owned()),
            size: 0,
            scalable: true,
        },
    );
    let sizes = icon_sizes();
    proof {
        assert(sz.skip(0) =~= sz);
        assert(spec_size_lookups(name@, Option::Some(theme@), sz.skip(0)) =~= spec_size_lookups(
            name@,
            Option::Some(theme@),
            sz,
        ));
        assert(candidates_view(r@) + spec_size_lookups(name@, Option::Some(theme@), sz.skip(0))
            + spec_size_lookups(name@, Option::None, sz) + spec_pixmap_guesses(pv, name@)
            + spec_all_export_scans(dv, name@) =~= goal);
    }
    let mut k: usize = 0;
    while k < sizes.len()
        invariant
            0 <= k <= sz.len(),
            sizes@ =~= sz,
            sz == spec_icon_sizes(),
            dv == export_dirs.deep_view(),
            pv == pixmap_dirs.deep_view(),
            goal == spec_icon_plan(name@, theme@, pv, dv),
            candidates_view(r@) + spec_size_lookups(name@, Option::Some(theme@), sz.skip(k as int))
                + spec_size_lookups(name@, Option::None, sz) + spec_pixmap_guesses(pv, name@)
                + spec_all_export_scans(dv, name@) =~= goal,
        decreases sz.len() - k,
    {
        let ghost x = IconCandidateV::Lookup {
            name: name@,
            theme: Option::Some(theme@),
            size: sz[k as int],
            scalable: false,
        };
        r.push(
            IconCandidate::Lookup {
                name: name.to_owned(),
                theme: Some(theme.to_owned()),
                size: sizes[k],
                scalable: false,
            },
        );
        proof {
            assert(candidates_view(r@) =~= candidates_view(r@.drop_last()).push(x));
            assert(spec_size_lookups(name@, Option::Some(theme@), sz.skip(k as int)) =~= seq![x]
                + spec_size_lookups(name@, Option::Some(theme@), sz.skip(k + 1)));
        }
        k = k + 1;
    }
    proof {
        assert(sz.skip(sz.len() as int) =~= Seq::<u32>::empty());
        assert(spec_size_lookups(name@, Option::Some(theme@), Seq::<u32>::empty())
            =~= Seq::<IconCandidateV>::empty());
        assert(sz.skip(0) =~= sz);
        assert(spec_size_lookups(name@, Option::None, sz.skip(0)) =~= spec_size_lookups(
            name@,
            Option::None,
            sz,
        ));
    }
    let mut k: usize = 0;
    while k < sizes.len()
        invariant
            0 <= k <= sz.len(),
            sizes@ =~= sz,
            sz == spec_icon_sizes(),
            dv == export_dirs.deep_view(),
            pv == pixmap_dirs.deep_view(),
            goal == spec_icon_plan(name@, theme@, pv, dv),
            candidates_view(r@) + spec_size_lookups(name@, Option::None, sz.skip(k as int))
                + spec_pixmap_guesses(pv, name@) + spec_all_export_scans(dv, name@) =~= goal,
        decreases sz.len() - k,
    {
        let ghost x = IconCandidateV::Lookup {
            name: name@,
            theme: Option::None,
            size: sz[k as int],
            scalable: false,
        };
        r.push(
            IconCandidate::Lookup {
                name: name.to_owned(),
                theme: None,
                size: sizes[k],
                scalable: false,
            },
        );
        proof {
            assert(candidates_view(r@) =~= candidates_view(r@.drop_last()).push(x));
            assert(spec_size_lookups(name@, Option::None, sz.skip(k as int)) =~= seq![x]
                + spec_size_lookups(name@, Option::None, sz.skip(k + 1)));
        }
        k = k + 1;
    }
    proof {
        assert(sz.skip(sz.len() as int) =~= Seq::<u32>::empty());
        assert(spec_size_lookups(name@, Option::None, Seq::<u32>::empty())
            =~= Seq::<IconCandidateV>::empty());
        assert(pv.skip(0) =~= pv);
    }
    let mut p: usize = 0;
    while p < pixmap_dirs.len()
        invariant
            0 <= p <= pv.len(),
            pv == pixmap_dirs.deep_view(),
            dv == export_dirs.deep_view(),
            pixmap_dirs@.len() == pv.len(),
            goal == spec_icon_plan(name@, theme@, pv, dv),
            candidates_view(r@) + spec_pixmap_guesses(pv.skip(p as int), name@)
                + spec_all_export_scans(dv, name@) =~= goal,
        decreases pv.len() - p,
    {
        let ghost ptail = pv.skip(p as int);
        proof {
            assert(ptail[0] == pv[p as int]);
            assert(ptail.drop_first() =~= pv.skip(p + 1));
            assert(pixmap_dirs@[p as int]@ == pv[p as int]);
        }
        let mut base = pixmap_dirs[p].clone();
        base.append("/");
        base.append(name);
        let mut svg = base.clone();
        svg.append(".svg");
        let mut png = base.clone();
        png.append(".png");
        let mut xpm = base.clone();
        xpm.append(".xpm");
        r.push(IconCandidate::File { path: svg });
        assert(candidates_view(r@) =~= candidates_view(r@.drop_last()).push(
            IconCandidateV::File { path: pv[p as int] + "/"@ + name@ + ".svg"@ },
        ));
        r.push(IconCandidate::File { path: png });
        assert(candidates_view(r@) =~= candidates_view(r@.drop_last()).push(
            IconCandidateV::File { path: pv[p as int] + "/"@ + name@ + ".png"@ },
        ));
        r.push(IconCandidate::File { path: xpm });
        assert(candidates_view(r@) =~= candidates_view(r@.drop_last()).push(
            IconCandidateV::File { path: pv[p as int] + "/"@ + name@ + ".xpm"@ },
        ));
        proof {
            assert(spec_pixmap_guesses(pv.skip(p as int), name@) =~= seq![
                IconCandidateV::File { path: pv[p as int] + "/"@ + name@ + ".svg"@ },
                IconCandidateV::File { path: pv[p as int] + "/"@ + name@ + ".png"@ },
                IconCandidateV::File { path: pv[p as int] + "/"@ + name@ + ".xpm"@ },
            ] + spec_pixmap_guesses(pv.skip(p + 1), name@));
        }
        p = p + 1;
    }
    proof {
        assert(pv.skip(pv.len() as int) =~= Seq::<Seq<char>>::empty());
        assert(spec_pixmap_guesses(Seq::<Seq<char>>::empty(), name@)
            =~= Seq::<IconCandidateV>::empty());
        assert(dv.skip(0) =~= dv);
    }
    let mut d: usize = 0;
    while d < export_dirs.len()
        invariant
            0 <= d <= dv.len(),
            sizes@ =~= sz,
            sz == spec_icon_sizes(),
            dv == export_dirs.deep_view(),
            export_dirs@.len() == dv.len(),
            goal == spec_icon_plan(name@, theme@, pv, dv),
            candidates_view(r@) + spec_all_export_scans(dv.skip(d as int), name@) =~= goal,
        decreases dv.len() - d,
    {
        let ghost dtail = dv.skip(d as int);
        proof {
            assert(dtail[0] == dv[d as int]);
            assert(dtail.drop_first() =~= dv.skip(d + 1));
            assert(export_dirs@[d as int]@ == dv[d as int]);
        }
        let ghost hd = IconCandidateV::ExportScan {
            dir: dv[d as int],
            name: name@,
            size: 0u32,
            scalable: true,
        };
        r.push(
            IconCandidate::ExportScan {
                dir: export_dirs[d].clone(),
                name: name.to_owned(),
                size: 0,
                scalable: true,
            },
        );
        proof {
            assert(candidates_view(r@) =~= candidates_view(r@.drop_last()).push(hd));
            assert(spec_export_scans(dv[d as int], name@, sz.skip(0)) =~= spec_export_scans(
                dv[d as int],
                name@,
                sz,
            )) by {
                assert(sz.skip(0) =~= sz);
            }
        }
        let mut k: usize = 0;
        while k < sizes.len()
            invariant
                0 <= k <= sz.len(),
                0 <= d < dv.len(),
                d < export_dirs@.len(),
                sizes@ =~= sz,
                sz == spec_icon_sizes(),
                dv == export_dirs.deep_view(),
                export_dirs@[d as int]@ == dv[d as int],
                goal == spec_icon_plan(name@, theme@, pv, dv),
                candidates_view(r@) + spec_export_scans(dv[d as int], name@, sz.skip(k as int))
                    + spec_all_export_scans(dv.skip(d + 1), name@) =~= goal,
            decreases sz.len() - k,
        {
            let ghost x = IconCandidateV::ExportScan {
                dir: dv[d as int],
                name: name@,
                size: sz[k as int],
                scalable: false,
            };
            r.push(
                IconCandidate::ExportScan {
                    dir: export_dirs[d].clone(),
                    name: name.to_owned(),
                    size: sizes[k],
                    scalable: false,
                },
            );
            proof {
                assert(candidates_view(r@) =~= candidates_view(r@.drop_last()).push(x));
                assert(spec_export_scans(dv[d as int], name@, sz.skip(k as int)) =~= seq![x]
                    + spec_export_scans(dv[d as int], name@, sz.skip(k + 1)));
            }
            k = k + 1;
        }
        proof {
            assert(sz.skip(sz.len() as int) =~= Seq::<u32>::empty());
            assert(spec_export_scans(dv[d as int], name@, Seq::<u32>::empty())
                =~= Seq::<IconCandidateV>::empty());
        }
        d = d + 1;
    }
    proof {
        assert(dv.skip(dv.len() as int) =~= Seq::<Seq<char>>::empty());
        assert(spec_all_export_scans(Seq::<Seq<char>>::empty(), name@)
            =~= Seq::<IconCandidateV>::empty());
        assert(candidates_view(r@) =~= goal);
    }
    r
}

/// The first hit of a lookup chain, or nothing when every lookup missed.
pub open spec fn spec_first_hit(outcomes: Seq<Option<Seq<char>>>) -> Option<Seq<char>>
    decreases outcomes.len(),
{
    if outcomes.len() == 0 {
        Option::None
    } else {
        match outcomes[0] {
            Option::Some(p) => Option::Some(p),
            Option::None => spec_first_hit(outcomes.drop_first()),
        }
    }
}

/// Picks the first lookup outcome that hit: the preference order of the
/// plan decides, never a later hit.
pub fn first_hit(outcomes: Vec<Option<String>>) -> (r: Option<String>)
    ensures
        match r {
            Option::Some(p) => spec_first_hit(outcomes.deep_view()) == Option::Some(p@),
            Option::None => spec_first_hit(outcomes.deep_view()) is None,
        },
{
    let ghost ov = outcomes.deep_view();
    proof {
        assert(ov.skip(0) =~= ov);
    }
    let n = outcomes.len();
    let mut i: usize = 0;
    while i < n
        invariant
            0 <= i <= n,
            n == outcomes@.len(),
            ov.len() == n,
            ov == outcomes.deep_view(),
            spec_first_hit(ov) == spec_first_hit(ov.skip(i as int)),
            forall|k: int| 0 <= k < outcomes@.len() ==> outcomes.deep_view()[k] == ov[k],
        decreases n - i,
    {
        let ghost tail = ov.skip(i as int);
        proof {
            assert(tail[0] == ov[i as int]);
            assert(tail.drop_first() =~= ov.skip(i + 1));
        }
        match &outcomes[i] {
            Some(p) => {
                assert(outcomes@[i as int] == Option::Some(*p));
                assert(outcomes.deep_view()[i as int] == outcomes@[i as int].deep_view());
                assert(ov[i as int] == Option::Some(p@));
                return Some(p.clone());
            },
            None => {},
        }
        i = i + 1;
    }
    proof {
        assert(ov.skip(n as int) =~= Seq::<Option<Seq<char>>>::empty());
    }
    None
}

} // verus!
