//! One live's presets and the pure edits the bottom panel makes to them before handing the list
//! to the room, which validates it and restarts the affected encoders.
use vstd::prelude::*;

use crate::kinds::{Codec, SourceKind};
use crate::text::owned;

verus! {

/// The preset that encodes at the source's own size.
pub const SOURCE_PRESET_ID: u32 = 1;

/// One encoding of a live: its id and name, size, rate, bitrate and codec.
#[derive(Debug, Clone, PartialEq, Eq)]
pub struct Preset {
    pub id: u32,
    pub name: String,
    pub width: u32,
    pub height: u32,
    pub fps: u32,
    pub bitrate_kbps: u32,
    pub codec: Codec,
}

/// A preset as plain values.
pub type PresetView = (u32, Seq<char>, u32, u32, u32, u32, Codec);

/// The plain values of a preset.
pub open spec fn preset_view(p: Preset) -> PresetView {
    (p.id, p.name@, p.width, p.height, p.fps, p.bitrate_kbps, p.codec)
}

/// The plain values of a list of presets.
pub open spec fn presets_view(s: Seq<Preset>) -> Seq<PresetView> {
    s.map_values(|p: Preset| preset_view(p))
}

impl Preset {
    /// The same preset.
    pub fn copy(&self) -> (p: Preset)
        ensures
            preset_view(p) == preset_view(*self),
    {
        Preset {
            id: self.id,
            name: owned(self.name.as_str()),
            width: self.width,
            height: self.height,
            fps: self.fps,
            bitrate_kbps: self.bitrate_kbps,
            codec: self.codec,
        }
    }
}

/// What a live offers: its identity, what it captures at what size and rate, and its presets.
#[derive(Debug, Clone, PartialEq, Eq)]
pub struct LiveInfo {
    pub id: u32,
    pub title: String,
    pub kind: SourceKind,
    pub source_width: u32,
    pub source_height: u32,
    pub source_fps: u32,
    pub has_audio: bool,
    pub presets: Vec<Preset>,
}

/// Whether `s` offers a preset with id `id`.
pub open spec fn offers(s: Seq<Preset>, id: u32) -> bool {
    exists|i: int| 0 <= i < s.len() && (#[trigger] s[i]).id == id
}

/// The preset a watch uses: the wanted one while the live still offers it, else Source, else
/// the first preset; `None` when the live offers nothing.
pub open spec fn offered(s: Seq<Preset>, wanted: Option<u32>) -> Option<u32> {
    if wanted is Some && offers(s, wanted->0) {
        wanted
    } else if offers(s, SOURCE_PRESET_ID) {
        Some(SOURCE_PRESET_ID)
    } else if s.len() > 0 {
        Some(s[0].id)
    } else {
        None
    }
}

/// Whether `presets` offers a preset with id `id`.
fn offers_id(presets: &Vec<Preset>, id: u32) -> (b: bool)
    ensures
        b == offers(presets@, id),
{
    let mut i: usize = 0;
    while i < presets.len()
        invariant
            i <= presets@.len(),
            forall|j: int| 0 <= j < i ==> (#[trigger] presets@[j]).id != id,
        decreases presets@.len() - i,
    {
        if presets[i].id == id {
            return true;
        }
        i = i + 1;
    }
    false
}

/// The preset a watch of `live` should use given the one the user wanted.
pub fn offered_preset(live: &LiveInfo, wanted: Option<u32>) -> (r: Option<u32>)
    ensures
        r == offered(live.presets@, wanted),
{
    match wanted {
        Some(id) => {
            if offers_id(&live.presets, id) {
                return Some(id);
            }
        },
        None => {},
    }
    if offers_id(&live.presets, SOURCE_PRESET_ID) {
        Some(SOURCE_PRESET_ID)
    } else if live.presets.len() > 0 {
        Some(live.presets[0].id)
    } else {
        None
    }
}

/// `v` held within `lo` and `hi`.
pub open spec fn clamped(v: u32, lo: u32, hi: u32) -> u32 {
    if v < lo {
        lo
    } else if v > hi {
        hi
    } else {
        v
    }
}

/// Sets the bitrate on the presets whose id is `preset_id`, held within `min_kbps` and
/// `max_kbps`, the range the room accepts; other presets are left untouched.
pub fn with_bitrate(info: &LiveInfo, preset_id: u32, kbps: u32, min_kbps: u32, max_kbps: u32) -> (out: Vec<Preset>)
    requires
        min_kbps <= max_kbps,
    ensures
        out@.len() == info.presets@.len(),
        forall|i: int| 0 <= i < out@.len() ==> #[trigger] preset_view(out@[i]) == {
            let p = preset_view(info.presets@[i]);
            if p.0 == preset_id {
                (p.0, p.1, p.2, p.3, p.4, clamped(kbps, min_kbps, max_kbps), p.6)
            } else {
                p
            }
        },
{
    let rate = if kbps < min_kbps { min_kbps } else if kbps > max_kbps { max_kbps } else { kbps };
    let mut out: Vec<Preset> = Vec::new();
    let mut i: usize = 0;
    while i < info.presets.len()
        invariant
            i <= info.presets@.len(),
            out@.len() == i,
            rate == clamped(kbps, min_kbps, max_kbps),
            forall|j: int| 0 <= j < i ==> #[trigger] preset_view(out@[j]) == {
                let p = preset_view(info.presets@[j]);
                if p.0 == preset_id {
                    (p.0, p.1, p.2, p.3, p.4, clamped(kbps, min_kbps, max_kbps), p.6)
                } else {
                    p
                }
            },
        decreases info.presets@.len() - i,
    {
        let mut p = info.presets[i].copy();
        if p.id == preset_id {
            p.bitrate_kbps = rate;
        }
        out.push(p);
        i = i + 1;
    }
    out
}

/// The frame rate `fps` held within one and the source's rate.
pub open spec fn held_fps(fps: u32, source_fps: u32) -> u32 {
    clamped(fps, 1, if source_fps < 1 { 1 } else { source_fps })
}

/// Sets every preset's frame rate, held within one and the source rate.
pub fn with_fps(info: &LiveInfo, fps: u32) -> (out: Vec<Preset>)
    ensures
        out@.len() == info.presets@.len(),
        forall|i: int| 0 <= i < out@.len() ==> #[trigger] preset_view(out@[i]) == {
            let p = preset_view(info.presets@[i]);
            (p.0, p.1, p.2, p.3, held_fps(fps, info.source_fps), p.5, p.6)
        },
{
    let top = if info.source_fps < 1 { 1 } else { info.source_fps };
    let rate = if fps < 1 { 1 } else if fps > top { top } else { fps };
    let mut out: Vec<Preset> = Vec::new();
    let mut i: usize = 0;
    while i < info.presets.len()
        invariant
            i <= info.presets@.len(),
            out@.len() == i,
            rate == held_fps(fps, info.source_fps),
            forall|j: int| 0 <= j < i ==> #[trigger] preset_view(out@[j]) == {
                let p = preset_view(info.presets@[j]);
                (p.0, p.1, p.2, p.3, held_fps(fps, info.source_fps), p.5, p.6)
            },
        decreases info.presets@.len() - i,
    {
        let mut p = info.presets[i].copy();
        p.fps = rate;
        out.push(p);
        i = i + 1;
    }
    out
}

/// Sets the codec on every preset of the live.
pub fn with_codec(info: &LiveInfo, codec: Codec) -> (out: Vec<Preset>)
    ensures
        out@.len() == info.presets@.len(),
        forall|i: int| 0 <= i < out@.len() ==> #[trigger] preset_view(out@[i]) == {
            let p = preset_view(info.presets@[i]);
            (p.0, p.1, p.2, p.3, p.4, p.5, codec)
        },
{
    let mut out: Vec<Preset> = Vec::new();
    let mut i: usize = 0;
    while i < info.presets.len()
        invariant
            i <= info.presets@.len(),
            out@.len() == i,
            forall|j: int| 0 <= j < i ==> #[trigger] preset_view(out@[j]) == {
                let p = preset_view(info.presets@[j]);
                (p.0, p.1, p.2, p.3, p.4, p.5, codec)
            },
        decreases info.presets@.len() - i,
    {
        let mut p = info.presets[i].copy();
        p.codec = codec;
        out.push(p);
        i = i + 1;
    }
    out
}

/// Whether the ids of `s` never decrease.
pub open spec fn ids_ascend(s: Seq<PresetView>) -> bool {
    forall|i: int, j: int| 0 <= i < j < s.len() ==> (#[trigger] s[i]).0 <= (#[trigger] s[j]).0
}

/// The first index of `s` with id `id`.
pub open spec fn first_with_id(s: Seq<Preset>, id: u32) -> int
    recommends
        offers(s, id),
{
    choose|i: int| 0 <= i < s.len() && s[i].id == id && forall|j: int| 0 <= j < i ==> (#[trigger] s[j]).id != id
}

/// Adds the template with id `template_id` when the live lacks it, keeping the list in id
/// order; removes the preset when present, unless it is the last one, so a live always offers
/// something to watch. `templates` are what the template ladder offers for this live.
pub fn toggle_template(info: &LiveInfo, template_id: u32, templates: &Vec<Preset>) -> (out: Vec<Preset>)
    ensures
        offers(info.presets@, template_id) && info.presets@.len() > 1 ==> exists|k: int|
            0 <= k < info.presets@.len() && info.presets@[k].id == template_id && (forall|j: int|
                0 <= j < k ==> (#[trigger] info.presets@[j]).id != template_id) && presets_view(out@)
                == presets_view(info.presets@).remove(k),
        offers(info.presets@, template_id) && info.presets@.len() <= 1 ==> presets_view(out@)
            == presets_view(info.presets@),
        !offers(info.presets@, template_id) && !offers(templates@, template_id) ==> presets_view(out@)
            == presets_view(info.presets@),
        !offers(info.presets@, template_id) && offers(templates@, template_id) ==> {
            &&& ids_ascend(presets_view(out@))
            &&& forall|id: u32| #[trigger] with_id(presets_view(out@), id) == with_id(
                presets_view(info.presets@).push(preset_view(templates@[first_with_id(templates@, template_id)])),
                id,
            )
            &&& presets_view(out@).to_multiset() == presets_view(info.presets@).to_multiset().insert(
                preset_view(templates@[first_with_id(templates@, template_id)]),
            )
        },
{
    let ghost orig = presets_view(info.presets@);
    let mut i: usize = 0;
    while i < info.presets.len()
        invariant
            i <= info.presets@.len(),
            forall|j: int| 0 <= j < i ==> (#[trigger] info.presets@[j]).id != template_id,
        decreases info.presets@.len() - i,
    {
        if info.presets[i].id == template_id {
            let mut out = copy_presets(&info.presets);
            if out.len() > 1 {
                let ghost pre = out@;
                out.remove(i);
                proof {
                    assert(out@ == pre.remove(i as int));
                    assert(presets_view(out@) =~= presets_view(pre).remove(i as int));
                    assert(info.presets@[i as int].id == template_id);
                }
            }
            return out;
        }
        i = i + 1;
    }
    let mut t: usize = 0;
    while t < templates.len()
        invariant
            t <= templates@.len(),
            forall|j: int| 0 <= j < t ==> (#[trigger] templates@[j]).id != template_id,
            forall|j: int| 0 <= j < info.presets@.len() ==> (#[trigger] info.presets@[j]).id != template_id,
        decreases templates@.len() - t,
    {
        if templates[t].id == template_id {
            proof {
                let f = first_with_id(templates@, template_id);
                assert(0 <= t < templates@.len() && templates@[t as int].id == template_id && forall|j: int| 0 <= j < t ==> (#[trigger] templates@[j]).id != template_id);
                assert(f == t);
            }
            let mut out = copy_presets(&info.presets);
            let tp = templates[t].copy();
            let ghost base = out@;
            out.push(tp);
            proof {
                assert(presets_view(out@) =~= presets_view(base).push(preset_view(tp)));
                vstd::seq_lib::to_multiset_build(presets_view(base), preset_view(tp));
            }
            let sorted = sort_by_id(out);
            return sorted;
        }
        t = t + 1;
    }
    copy_presets(&info.presets)
}

/// A second copy of a list of presets.
pub fn copy_presets(v: &Vec<Preset>) -> (out: Vec<Preset>)
    ensures
        out@.len() == v@.len(),
        presets_view(out@) == presets_view(v@),
{
    let mut out: Vec<Preset> = Vec::new();
    let mut i: usize = 0;
    while i < v.len()
        invariant
            i <= v@.len(),
            out@.len() == i,
            forall|j: int| 0 <= j < i ==> #[trigger] preset_view(out@[j]) == preset_view(v@[j]),
        decreases v@.len() - i,
    {
        let p = v[i].copy();
        out.push(p);
        i = i + 1;
    }
    assert(presets_view(out@) =~= presets_view(v@));
    out
}

/// Whether a preset has id `id`.
pub open spec fn has_id(id: u32) -> spec_fn(PresetView) -> bool {
    |p: PresetView| p.0 == id
}

/// The presets of `s` with id `id`, in their order.
pub open spec fn with_id(s: Seq<PresetView>, id: u32) -> Seq<PresetView> {
    s.filter(has_id(id))
}

/// Inserting `x` at `pos` adds it to the elements `pred` keeps, last, when none after `pos` is
/// kept; an element `pred` does not keep leaves them alone.
pub proof fn lemma_filter_insert<A>(before: Seq<A>, pos: int, x: A, pred: spec_fn(A) -> bool)
    requires
        0 <= pos <= before.len(),
        pred(x) ==> forall|j: int| pos <= j < before.len() ==> !pred(#[trigger] before[j]),
    ensures
        before.insert(pos, x).filter(pred) == if pred(x) {
            before.filter(pred).push(x)
        } else {
            before.filter(pred)
        },
{
    let head = before.take(pos);
    let tail = before.skip(pos);
    assert(before.insert(pos, x) =~= head + seq![x] + tail);
    assert(before =~= head + tail);
    Seq::filter_distributes_over_add(head + seq![x], tail, pred);
    Seq::filter_distributes_over_add(head, seq![x], pred);
    Seq::filter_distributes_over_add(head, tail, pred);
    Seq::<A>::empty().lemma_filter_push(x, pred);
    assert(seq![x] =~= Seq::<A>::empty().push(x));
    if pred(x) {
        assert(tail.all(|q: A| !pred(q)));
        tail.lemma_all_neg_filter_empty(pred);
        assert(tail.filter(pred) =~= Seq::<A>::empty());
        assert(head.filter(pred) + seq![x] =~= head.filter(pred).push(x));
        assert((head.filter(pred) + tail.filter(pred)) =~= head.filter(pred));
    } else {
        assert(seq![x].filter(pred) =~= Seq::<A>::empty());
        assert(head.filter(pred) + Seq::<A>::empty() =~= head.filter(pred));
    }
}

/// The presets in increasing id order, an insertion sort that keeps presets of equal id in
/// their order.
pub fn sort_by_id(v: Vec<Preset>) -> (out: Vec<Preset>)
    ensures
        ids_ascend(presets_view(out@)),
        forall|id: u32| #[trigger] with_id(presets_view(out@), id) == with_id(presets_view(v@), id),
        presets_view(out@).to_multiset() == presets_view(v@).to_multiset(),
{
    let mut out: Vec<Preset> = Vec::new();
    let mut rest = v;
    let ghost orig = presets_view(rest@);
    let mut i: usize = 0;
    let n = rest.len();
    let mut input: Vec<Preset> = Vec::new();
    std::mem::swap(&mut input, &mut rest);
    proof {
        assert(presets_view(out@) =~= Seq::empty());
        assert(orig.take(0) =~= Seq::empty());
    }
    while i < n
        invariant
            n == input@.len(),
            orig == presets_view(input@),
            i <= n,
            ids_ascend(presets_view(out@)),
            forall|id: u32| #[trigger] with_id(presets_view(out@), id) == with_id(orig.take(i as int), id),
            presets_view(out@).to_multiset() == orig.take(i as int).to_multiset(),
        decreases n - i,
    {
        let p = input[i].copy();
        let mut pos: usize = out.len();
        while pos > 0 && out[pos - 1].id > p.id
            invariant
                pos <= out@.len(),
                forall|j: int| pos <= j < out@.len() ==> (#[trigger] out@[j]).id > p.id,
            decreases pos,
        {
            pos = pos - 1;
        }
        let ghost before = presets_view(out@);
        let ghost old_out = out@;
        out.insert(pos, p);
        proof {
            let after = presets_view(out@);
            assert(after =~= before.insert(pos as int, preset_view(p)));
            assert(ids_ascend(after)) by {
                assert forall|a: int, b: int| 0 <= a < b < after.len() implies (#[trigger] after[a]).0 <= (#[trigger] after[b]).0 by {
                    if a < pos && b < pos {
                        assert(after[a] == before[a] && after[b] == before[b]);
                    } else if a < pos && b == pos {
                        assert(after[a] == before[a]);
                        if pos > 0 {
                            assert(before[pos - 1].0 <= p.id);
                            assert(before[a].0 <= before[pos - 1].0);
                        }
                    } else if a < pos {
                        assert(after[a] == before[a] && after[b] == before[b - 1]);
                    } else if a == pos {
                        assert(after[b] == before[b - 1]);
                        assert(before[b - 1].0 > p.id);
                    } else {
                        assert(after[a] == before[a - 1] && after[b] == before[b - 1]);
                    }
                }
            }
            vstd::seq_lib::to_multiset_insert(before, pos as int, preset_view(p));
            vstd::seq_lib::to_multiset_build(orig.take(i as int), orig[i as int]);
            assert(orig.take(i + 1) =~= orig.take(i as int).push(orig[i as int]));
            assert(orig[i as int] == preset_view(p));
            assert forall|j: int| pos <= j < before.len() implies (#[trigger] before[j]).0 > preset_view(p).0 by {
                assert(before[j] == preset_view(old_out[j]));
            }
            assert forall|id: u32| #[trigger] with_id(after, id) == with_id(orig.take(i + 1), id) by {
                assert forall|j: int| pos <= j < before.len() implies !has_id(id)(#[trigger] before[j]) || !has_id(id)(
                    preset_view(p)) by {
                    assert(before[j].0 > preset_view(p).0);
                }
                lemma_filter_insert(before, pos as int, preset_view(p), has_id(id));
                orig.take(i as int).lemma_filter_push(orig[i as int], has_id(id));
                assert(with_id(after, id) == with_id(before.insert(pos as int, preset_view(p)), id));
                assert(with_id(orig.take(i + 1), id) == orig.take(i as int).push(orig[i as int]).filter(has_id(id)));
                assert(with_id(before, id) == with_id(orig.take(i as int), id));
            }
        }
        i = i + 1;
    }
    assert(orig.take(n as int) =~= orig);
    out
}

} // verus!
