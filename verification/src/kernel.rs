use vstd::prelude::*;

verus! {

/// One error-diffusion tap: the not-yet-finalized neighbor at scan offset
/// (dx, dy) receives the fraction num/den of the current pixel's residual
/// (dx is mirrored in x on right-to-left rows).
#[derive(Clone, Copy)]
pub struct KernelTap {
    pub dx: i32,
    pub dy: i32,
    pub num: u32,
}

/// A tap points strictly forward in scan order (dy >= 0, and dx > 0 on the
/// current row), stays within a small neighborhood, and carries a positive
/// weight no greater than the kernel's denominator.
pub open spec fn tap_wf(t: KernelTap, den: int) -> bool {
    &&& 1 <= t.num <= den
    &&& -8 <= t.dx <= 8
    &&& 0 <= t.dy <= 8
    &&& (t.dy > 0 || t.dx > 0)
}

/// Sum of the tap weight numerators.
pub open spec fn taps_num_sum(taps: Seq<KernelTap>) -> int
    decreases taps.len(),
{
    if taps.len() == 0 {
        0
    } else {
        taps_num_sum(taps.drop_last()) + taps.last().num
    }
}

proof fn lemma_taps_num_sum_push(taps: Seq<KernelTap>, t: KernelTap)
    ensures
        taps_num_sum(taps.push(t)) == taps_num_sum(taps) + t.num,
{
    assert(taps.push(t).drop_last() =~= taps);
    assert(taps.push(t).last() == t);
}

/// An ordered list of taps over a common weight denominator: the weight of
/// tap j is taps[j].num / den of the (strength-scaled) residual.
pub struct DiffusionKernel {
    pub taps: Vec<KernelTap>,
    pub den: u32,
}

impl DiffusionKernel {
    pub open spec fn wf(self) -> bool {
        &&& 1 <= self.den <= 64
        &&& self.taps@.len() <= 16
        &&& forall|j: int|
            0 <= j < self.taps@.len() ==> tap_wf(#[trigger] self.taps@[j], self.den as int)
    }

    /// Sum of the kernel's weights as a fraction of den: the kernel's
    /// weights sum to exactly weight_sum()/den.
    pub open spec fn weight_sum(self) -> int {
        taps_num_sum(self.taps@)
    }
}

/// Appends a tap, tracking the running weight sum.
fn push_tap(taps: &mut Vec<KernelTap>, dx: i32, dy: i32, num: u32)
    ensures
        final(taps)@ == old(taps)@.push(KernelTap { dx, dy, num }),
        taps_num_sum(final(taps)@) == taps_num_sum(old(taps)@) + num,
{
    proof {
        lemma_taps_num_sum_push(taps@, KernelTap { dx, dy, num });
    }
    taps.push(KernelTap { dx, dy, num });
}

/// Tap table of the floyd steinberg kernel.
pub open spec fn floyd_steinberg_taps() -> Seq<KernelTap> {
    seq![
        (KernelTap { dx: 1, dy: 0, num: 7 }),
        (KernelTap { dx: -1i32, dy: 1, num: 3 }),
        (KernelTap { dx: 0, dy: 1, num: 5 }),
        (KernelTap { dx: 1, dy: 1, num: 1 }),
    ]
}

/// Floyd-Steinberg (1976): weights 7, 3, 5, 1 over 16; sums to exactly 1.
pub fn floyd_steinberg_kernel() -> (k: DiffusionKernel)
    ensures
        k.wf(),
        k.den == 16,
        k.weight_sum() == 16,
        k.taps@ == floyd_steinberg_taps(),
{
    let mut taps: Vec<KernelTap> = Vec::new();
    push_tap(&mut taps, 1, 0, 7);
    push_tap(&mut taps, -1, 1, 3);
    push_tap(&mut taps, 0, 1, 5);
    push_tap(&mut taps, 1, 1, 1);
    proof {
        assert(taps@ =~= floyd_steinberg_taps());
    }
    DiffusionKernel { taps, den: 16 }
}

/// Tap table of the atkinson kernel.
pub open spec fn atkinson_taps() -> Seq<KernelTap> {
    seq![
        (KernelTap { dx: 1, dy: 0, num: 1 }),
        (KernelTap { dx: 2, dy: 0, num: 1 }),
        (KernelTap { dx: -1i32, dy: 1, num: 1 }),
        (KernelTap { dx: 0, dy: 1, num: 1 }),
        (KernelTap { dx: 1, dy: 1, num: 1 }),
        (KernelTap { dx: 0, dy: 2, num: 1 }),
    ]
}

/// Atkinson (1984), used in the classic Macintosh: six taps of 1/8. The
/// weights sum to 6/8, intentionally below 1: a quarter of the residual is
/// deliberately retained (never diffused).
pub fn atkinson_kernel() -> (k: DiffusionKernel)
    ensures
        k.wf(),
        k.den == 8,
        k.weight_sum() == 6,
        k.taps@ == atkinson_taps(),
{
    let mut taps: Vec<KernelTap> = Vec::new();
    push_tap(&mut taps, 1, 0, 1);
    push_tap(&mut taps, 2, 0, 1);
    push_tap(&mut taps, -1, 1, 1);
    push_tap(&mut taps, 0, 1, 1);
    push_tap(&mut taps, 1, 1, 1);
    push_tap(&mut taps, 0, 2, 1);
    proof {
        assert(taps@ =~= atkinson_taps());
    }
    DiffusionKernel { taps, den: 8 }
}

/// Tap table of the jarvis judice ninke kernel.
pub open spec fn jarvis_judice_ninke_taps() -> Seq<KernelTap> {
    seq![
        (KernelTap { dx: 1, dy: 0, num: 7 }),
        (KernelTap { dx: 2, dy: 0, num: 5 }),
        (KernelTap { dx: -2i32, dy: 1, num: 3 }),
        (KernelTap { dx: -1i32, dy: 1, num: 5 }),
        (KernelTap { dx: 0, dy: 1, num: 7 }),
        (KernelTap { dx: 1, dy: 1, num: 5 }),
        (KernelTap { dx: 2, dy: 1, num: 3 }),
        (KernelTap { dx: -2i32, dy: 2, num: 1 }),
        (KernelTap { dx: -1i32, dy: 2, num: 3 }),
        (KernelTap { dx: 0, dy: 2, num: 5 }),
        (KernelTap { dx: 1, dy: 2, num: 3 }),
        (KernelTap { dx: 2, dy: 2, num: 1 }),
    ]
}

/// Jarvis-Judice-Ninke (1976): twelve taps over 48; sums to exactly 1.
pub fn jarvis_judice_ninke_kernel() -> (k: DiffusionKernel)
    ensures
        k.wf(),
        k.den == 48,
        k.weight_sum() == 48,
        k.taps@ == jarvis_judice_ninke_taps(),
{
    let mut taps: Vec<KernelTap> = Vec::new();
    push_tap(&mut taps, 1, 0, 7);
    push_tap(&mut taps, 2, 0, 5);
    push_tap(&mut taps, -2, 1, 3);
    push_tap(&mut taps, -1, 1, 5);
    push_tap(&mut taps, 0, 1, 7);
    push_tap(&mut taps, 1, 1, 5);
    push_tap(&mut taps, 2, 1, 3);
    push_tap(&mut taps, -2, 2, 1);
    push_tap(&mut taps, -1, 2, 3);
    push_tap(&mut taps, 0, 2, 5);
    push_tap(&mut taps, 1, 2, 3);
    push_tap(&mut taps, 2, 2, 1);
    proof {
        assert(taps@ =~= jarvis_judice_ninke_taps());
    }
    DiffusionKernel { taps, den: 48 }
}

/// Tap table of the stucki kernel.
pub open spec fn stucki_taps() -> Seq<KernelTap> {
    seq![
        (KernelTap { dx: 1, dy: 0, num: 8 }),
        (KernelTap { dx: 2, dy: 0, num: 4 }),
        (KernelTap { dx: -2i32, dy: 1, num: 2 }),
        (KernelTap { dx: -1i32, dy: 1, num: 4 }),
        (KernelTap { dx: 0, dy: 1, num: 8 }),
        (KernelTap { dx: 1, dy: 1, num: 4 }),
        (KernelTap { dx: 2, dy: 1, num: 2 }),
        (KernelTap { dx: -2i32, dy: 2, num: 1 }),
        (KernelTap { dx: -1i32, dy: 2, num: 2 }),
        (KernelTap { dx: 0, dy: 2, num: 4 }),
        (KernelTap { dx: 1, dy: 2, num: 2 }),
        (KernelTap { dx: 2, dy: 2, num: 1 }),
    ]
}

/// Stucki (1981): twelve taps over 42; sums to exactly 1.
pub fn stucki_kernel() -> (k: DiffusionKernel)
    ensures
        k.wf(),
        k.den == 42,
        k.weight_sum() == 42,
        k.taps@ == stucki_taps(),
{
    let mut taps: Vec<KernelTap> = Vec::new();
    push_tap(&mut taps, 1, 0, 8);
    push_tap(&mut taps, 2, 0, 4);
    push_tap(&mut taps, -2, 1, 2);
    push_tap(&mut taps, -1, 1, 4);
    push_tap(&mut taps, 0, 1, 8);
    push_tap(&mut taps, 1, 1, 4);
    push_tap(&mut taps, 2, 1, 2);
    push_tap(&mut taps, -2, 2, 1);
    push_tap(&mut taps, -1, 2, 2);
    push_tap(&mut taps, 0, 2, 4);
    push_tap(&mut taps, 1, 2, 2);
    push_tap(&mut taps, 2, 2, 1);
    proof {
        assert(taps@ =~= stucki_taps());
    }
    DiffusionKernel { taps, den: 42 }
}

/// Tap table of the burkes kernel.
pub open spec fn burkes_taps() -> Seq<KernelTap> {
    seq![
        (KernelTap { dx: 1, dy: 0, num: 8 }),
        (KernelTap { dx: 2, dy: 0, num: 4 }),
        (KernelTap { dx: -2i32, dy: 1, num: 2 }),
        (KernelTap { dx: -1i32, dy: 1, num: 4 }),
        (KernelTap { dx: 0, dy: 1, num: 8 }),
        (KernelTap { dx: 1, dy: 1, num: 4 }),
        (KernelTap { dx: 2, dy: 1, num: 2 }),
    ]
}

/// Burkes (1988): seven taps over 32; sums to exactly 1.
pub fn burkes_kernel() -> (k: DiffusionKernel)
    ensures
        k.wf(),
        k.den == 32,
        k.weight_sum() == 32,
        k.taps@ == burkes_taps(),
{
    let mut taps: Vec<KernelTap> = Vec::new();
    push_tap(&mut taps, 1, 0, 8);
    push_tap(&mut taps, 2, 0, 4);
    push_tap(&mut taps, -2, 1, 2);
    push_tap(&mut taps, -1, 1, 4);
    push_tap(&mut taps, 0, 1, 8);
    push_tap(&mut taps, 1, 1, 4);
    push_tap(&mut taps, 2, 1, 2);
    proof {
        assert(taps@ =~= burkes_taps());
    }
    DiffusionKernel { taps, den: 32 }
}

/// Tap table of the sierra kernel.
pub open spec fn sierra_taps() -> Seq<KernelTap> {
    seq![
        (KernelTap { dx: 1, dy: 0, num: 5 }),
        (KernelTap { dx: 2, dy: 0, num: 3 }),
        (KernelTap { dx: -2i32, dy: 1, num: 2 }),
        (KernelTap { dx: -1i32, dy: 1, num: 4 }),
        (KernelTap { dx: 0, dy: 1, num: 5 }),
        (KernelTap { dx: 1, dy: 1, num: 4 }),
        (KernelTap { dx: 2, dy: 1, num: 2 }),
        (KernelTap { dx: -1i32, dy: 2, num: 2 }),
        (KernelTap { dx: 0, dy: 2, num: 3 }),
        (KernelTap { dx: 1, dy: 2, num: 2 }),
    ]
}

/// Sierra (1989): ten taps over 32; sums to exactly 1.
pub fn sierra_kernel() -> (k: DiffusionKernel)
    ensures
        k.wf(),
        k.den == 32,
        k.weight_sum() == 32,
        k.taps@ == sierra_taps(),
{
    let mut taps: Vec<KernelTap> = Vec::new();
    push_tap(&mut taps, 1, 0, 5);
    push_tap(&mut taps, 2, 0, 3);
    push_tap(&mut taps, -2, 1, 2);
    push_tap(&mut taps, -1, 1, 4);
    push_tap(&mut taps, 0, 1, 5);
    push_tap(&mut taps, 1, 1, 4);
    push_tap(&mut taps, 2, 1, 2);
    push_tap(&mut taps, -1, 2, 2);
    push_tap(&mut taps, 0, 2, 3);
    push_tap(&mut taps, 1, 2, 2);
    proof {
        assert(taps@ =~= sierra_taps());
    }
    DiffusionKernel { taps, den: 32 }
}

/// Tap table of the sierra two row kernel.
pub open spec fn sierra_two_row_taps() -> Seq<KernelTap> {
    seq![
        (KernelTap { dx: 1, dy: 0, num: 4 }),
        (KernelTap { dx: 2, dy: 0, num: 3 }),
        (KernelTap { dx: -2i32, dy: 1, num: 1 }),
        (KernelTap { dx: -1i32, dy: 1, num: 2 }),
        (KernelTap { dx: 0, dy: 1, num: 3 }),
        (KernelTap { dx: 1, dy: 1, num: 2 }),
        (KernelTap { dx: 2, dy: 1, num: 1 }),
    ]
}

/// Sierra two-row (1990): seven taps over 16; sums to exactly 1.
pub fn sierra_two_row_kernel() -> (k: DiffusionKernel)
    ensures
        k.wf(),
        k.den == 16,
        k.weight_sum() == 16,
        k.taps@ == sierra_two_row_taps(),
{
    let mut taps: Vec<KernelTap> = Vec::new();
    push_tap(&mut taps, 1, 0, 4);
    push_tap(&mut taps, 2, 0, 3);
    push_tap(&mut taps, -2, 1, 1);
    push_tap(&mut taps, -1, 1, 2);
    push_tap(&mut taps, 0, 1, 3);
    push_tap(&mut taps, 1, 1, 2);
    push_tap(&mut taps, 2, 1, 1);
    proof {
        assert(taps@ =~= sierra_two_row_taps());
    }
    DiffusionKernel { taps, den: 16 }
}

/// Tap table of the sierra lite kernel.
pub open spec fn sierra_lite_taps() -> Seq<KernelTap> {
    seq![
        (KernelTap { dx: 1, dy: 0, num: 2 }),
        (KernelTap { dx: -1i32, dy: 1, num: 1 }),
        (KernelTap { dx: 0, dy: 1, num: 1 }),
    ]
}

/// Sierra lite (filter lite): three taps over 4; sums to exactly 1.
pub fn sierra_lite_kernel() -> (k: DiffusionKernel)
    ensures
        k.wf(),
        k.den == 4,
        k.weight_sum() == 4,
        k.taps@ == sierra_lite_taps(),
{
    let mut taps: Vec<KernelTap> = Vec::new();
    push_tap(&mut taps, 1, 0, 2);
    push_tap(&mut taps, -1, 1, 1);
    push_tap(&mut taps, 0, 1, 1);
    proof {
        assert(taps@ =~= sierra_lite_taps());
    }
    DiffusionKernel { taps, den: 4 }
}

/// Tap table of the false floyd steinberg kernel.
pub open spec fn false_floyd_steinberg_taps() -> Seq<KernelTap> {
    seq![
        (KernelTap { dx: 1, dy: 0, num: 3 }),
        (KernelTap { dx: 0, dy: 1, num: 3 }),
        (KernelTap { dx: 1, dy: 1, num: 2 }),
    ]
}

/// False Floyd-Steinberg: three taps over 8; sums to exactly 1.
pub fn false_floyd_steinberg_kernel() -> (k: DiffusionKernel)
    ensures
        k.wf(),
        k.den == 8,
        k.weight_sum() == 8,
        k.taps@ == false_floyd_steinberg_taps(),
{
    let mut taps: Vec<KernelTap> = Vec::new();
    push_tap(&mut taps, 1, 0, 3);
    push_tap(&mut taps, 0, 1, 3);
    push_tap(&mut taps, 1, 1, 2);
    proof {
        assert(taps@ =~= false_floyd_steinberg_taps());
    }
    DiffusionKernel { taps, den: 8 }
}

/// Tap table of the steven pigeon kernel.
pub open spec fn steven_pigeon_taps() -> Seq<KernelTap> {
    seq![
        (KernelTap { dx: 1, dy: 0, num: 2 }),
        (KernelTap { dx: 2, dy: 0, num: 1 }),
        (KernelTap { dx: -1i32, dy: 1, num: 1 }),
        (KernelTap { dx: 0, dy: 1, num: 2 }),
        (KernelTap { dx: 1, dy: 1, num: 2 }),
    ]
}

/// Steven Pigeon: five taps over 8; sums to exactly 1.
pub fn steven_pigeon_kernel() -> (k: DiffusionKernel)
    ensures
        k.wf(),
        k.den == 8,
        k.weight_sum() == 8,
        k.taps@ == steven_pigeon_taps(),
{
    let mut taps: Vec<KernelTap> = Vec::new();
    push_tap(&mut taps, 1, 0, 2);
    push_tap(&mut taps, 2, 0, 1);
    push_tap(&mut taps, -1, 1, 1);
    push_tap(&mut taps, 0, 1, 2);
    push_tap(&mut taps, 1, 1, 2);
    proof {
        assert(taps@ =~= steven_pigeon_taps());
    }
    DiffusionKernel { taps, den: 8 }
}

} // verus!
