use vstd::prelude::*;

verus! {

/// `AB24`: 8 bits per channel, alpha, blue, green, red.
pub const ABGR8888: u32 = 0x3432_4241;
/// `AR24`: 8 bits per channel, alpha, red, green, blue.
pub const ARGB8888: u32 = 0x3432_5241;
/// `AB30`: 10 bits per colour channel, 2 bits of alpha.
pub const ABGR2101010: u32 = 0x3033_4241;
/// `AR30`: 10 bits per colour channel, 2 bits of alpha.
pub const ARGB2101010: u32 = 0x3033_5241;

pub open spec fn color_formats_spec(disable_10bit: bool) -> Seq<u32> {
    if disable_10bit {
        seq![ABGR8888, ARGB8888]
    } else {
        seq![ABGR2101010, ARGB2101010, ABGR8888, ARGB8888]
    }
}

/// The colour formats outputs may be set up with, in order of preference;
/// with 10-bit formats disabled, only the 8-bit ones.
pub fn color_formats(disable_10bit: bool) -> (r: Vec<u32>)
    ensures
        r@ == color_formats_spec(disable_10bit),
{
    if disable_10bit {
        vec![ABGR8888, ARGB8888]
    } else {
        vec![ABGR2101010, ARGB2101010, ABGR8888, ARGB8888]
    }
}

/// A buffer format: a four-character colour code and a layout modifier.
#[derive(Clone, Copy, Debug, PartialEq, Eq, Structural)]
pub struct Format {
    pub code: u32,
    pub modifier: u64,
}

/// A group of formats that share a target device and a preference.
#[derive(Debug)]
pub struct Tranche {
    pub device: u64,
    /// Preferred for direct display on an output.
    pub scanout: bool,
    pub formats: Vec<Format>,
}

/// Buffer-format feedback for clients: the main device with its formats,
/// and tranches in order of preference.
#[derive(Debug)]
pub struct DmabufFeedback {
    pub main_device: u64,
    pub main_formats: Vec<Format>,
    pub tranches: Vec<Tranche>,
}

/// The feedback of one output: one for while it composites, one for
/// clients that may be displayed directly.
#[derive(Debug)]
pub struct SurfaceDmabufFeedback {
    pub render_feedback: DmabufFeedback,
    pub scanout_feedback: DmabufFeedback,
}

pub open spec fn no_duplicates(s: Seq<Format>) -> bool {
    forall|i: int, j: int| 0 <= i < j < s.len() ==> s[i] != s[j]
}

/// The formats both GPUs can render into.
pub open spec fn render_capable(primary: Seq<Format>, render: Seq<Format>) -> Set<Format> {
    primary.to_set().union(render.to_set())
}

/// The formats fit for direct display: those the output's planes can scan
/// out that some GPU can also render into, so composition stays a fallback.
pub open spec fn scanout_formats(planes: Seq<Format>, primary: Seq<Format>, render: Seq<Format>) -> Set<Format> {
    planes.to_set().intersect(render_capable(primary, render))
}

/// The direct-display formats are always formats some GPU can render into.
pub proof fn lemma_scanout_renderable(planes: Seq<Format>, primary: Seq<Format>, render: Seq<Format>)
    ensures
        scanout_formats(planes, primary, render).subset_of(render_capable(primary, render)),
{
}

fn contains_format(v: &Vec<Format>, f: Format) -> (r: bool)
    ensures
        r == v@.contains(f),
{
    let mut i: usize = 0;
    while i < v.len()
        invariant
            i <= v@.len(),
            forall|j: int| 0 <= j < i ==> v@[j] != f,
        decreases v.len() - i,
    {
        if v[i] == f {
            assert(v@[i as int] == f);
            return true;
        }
        i += 1;
    }
    false
}

fn copy_formats(v: &Vec<Format>) -> (r: Vec<Format>)
    ensures
        r@ == v@,
{
    let r = v.clone();
    assert(r@ =~= v@);
    r
}

/// The plane formats (in plane order, each once) that the primary or the
/// render GPU can render into.
pub fn scanout_tranche(planes: &Vec<Format>, primary: &Vec<Format>, render: &Vec<Format>) -> (r: Vec<Format>)
    ensures
        r@.to_set() == scanout_formats(planes@, primary@, render@),
        no_duplicates(r@),
{
    let mut r: Vec<Format> = Vec::new();
    let mut i: usize = 0;
    while i < planes.len()
        invariant
            i <= planes@.len(),
            no_duplicates(r@),
            forall|f: Format| r@.contains(f) <==> planes@.take(i as int).contains(f)
                && (primary@.contains(f) || render@.contains(f)),
        decreases planes.len() - i,
    {
        let f = planes[i];
        assert(planes@.take(i as int + 1) =~= planes@.take(i as int).push(f));
        let ghost r0 = r@;
        assert(planes@.take(i as int + 1)[i as int] == f);
        let renderable = contains_format(primary, f) || contains_format(render, f);
        if renderable && !contains_format(&r, f) {
            r.push(f);
        }
        assert forall|g: Format| r@.contains(g) <==> planes@.take(i as int + 1).contains(g)
            && (primary@.contains(g) || render@.contains(g)) by {
            if r@.contains(g) && r@.len() > r0.len() && g != f {
                let x = choose|x: int| 0 <= x < r@.len() && r@[x] == g;
                assert(r0[x] == g);
            }
            if planes@.take(i as int + 1).contains(g) && g != f {
                let t = planes@.take(i as int + 1);
                let x = choose|x: int| 0 <= x < t.len() && t[x] == g;
                assert(planes@.take(i as int)[x] == g);
            }
            if g == f && r@.len() > r0.len() {
                assert(r@[r0.len() as int] == g);
            }
            if r0.contains(g) {
                let x = choose|x: int| 0 <= x < r0.len() && r0[x] == g;
                assert(r@[x] == g);
            }
        }
        i += 1;
    }
    assert(planes@.take(i as int) =~= planes@);
    assert(r@.to_set() =~= scanout_formats(planes@, primary@, render@));
    r
}

/// Computes an output's feedback. `primary_gpu` and `render_node` are the
/// device numbers of the primary GPU and of the GPU that renders the output;
/// `scanout_device` is the device that drives the output; `planes` holds the
/// formats its planes can scan out.
pub fn surface_dmabuf_feedback(
    primary_gpu: u64,
    render_node: u64,
    scanout_device: u64,
    primary_formats: &Vec<Format>,
    render_formats: &Vec<Format>,
    planes: &Vec<Format>,
) -> (r: SurfaceDmabufFeedback)
    ensures
        r.render_feedback.main_device == primary_gpu,
        r.render_feedback.main_formats@ == primary_formats@,
        r.render_feedback.tranches@.len() == 1,
        r.render_feedback.tranches@[0].device == render_node,
        !r.render_feedback.tranches@[0].scanout,
        r.render_feedback.tranches@[0].formats@ == render_formats@,
        r.scanout_feedback.main_device == primary_gpu,
        r.scanout_feedback.main_formats@ == primary_formats@,
        r.scanout_feedback.tranches@.len() == 2,
        r.scanout_feedback.tranches@[0].device == scanout_device,
        r.scanout_feedback.tranches@[0].scanout,
        r.scanout_feedback.tranches@[0].formats@.to_set()
            == scanout_formats(planes@, primary_formats@, render_formats@),
        no_duplicates(r.scanout_feedback.tranches@[0].formats@),
        r.scanout_feedback.tranches@[1].device == render_node,
        !r.scanout_feedback.tranches@[1].scanout,
        r.scanout_feedback.tranches@[1].formats@ == render_formats@,
{
    let scanout = scanout_tranche(planes, primary_formats, render_formats);
    let render_feedback = DmabufFeedback {
        main_device: primary_gpu,
        main_formats: copy_formats(primary_formats),
        tranches: vec![Tranche { device: render_node, scanout: false, formats: copy_formats(render_formats) }],
    };
    let scanout_feedback = DmabufFeedback {
        main_device: primary_gpu,
        main_formats: copy_formats(primary_formats),
        tranches: vec![
            Tranche { device: scanout_device, scanout: true, formats: scanout },
            Tranche { device: render_node, scanout: false, formats: copy_formats(render_formats) },
        ],
    };
    SurfaceDmabufFeedback { render_feedback, scanout_feedback }
}

} // verus!
