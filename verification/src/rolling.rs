//! What the encoder knows of the decoder's codebooks.

use vstd::prelude::*;
use crate::codebook::{
    self, encode_full_chunk, encode_selective_chunk, Codebook, CodebookChunkKind, CodebookEntry,
    PixelMode, UpdateStyle, WhichCodebook, CHUNK_HEADER_SIZE,
};
use crate::quant;
use crate::vector::Mb;

verus! {

/// The codebooks that a decoder holds after what was emitted so far, each
/// with its size, and for how many frames each entry went unused.
#[verifier::ext_equal]
pub struct RollView {
    pub v4: Option<(Seq<CodebookEntry>, nat)>,
    pub v1: Option<(Seq<CodebookEntry>, nat)>,
    pub v4_stale: Seq<u16>,
    pub v1_stale: Seq<u16>,
}

/// The codebooks that a decoder holds after what was emitted so far.
pub struct RollingCodebooks {
    v4: Option<(Codebook, usize)>,
    v1: Option<(Codebook, usize)>,
    v4_stale: [u16; 256],
    v1_stale: [u16; 256],
}

/// The entries behind an optional codebook with its size.
pub open spec fn held_view(h: Option<(Codebook, usize)>) -> Option<(Seq<CodebookEntry>, nat)> {
    match h {
        Some((cb, n)) => Some((cb@, n as nat)),
        None => None,
    }
}

impl View for RollingCodebooks {
    type V = RollView;

    closed spec fn view(&self) -> RollView {
        RollView {
            v4: held_view(self.v4),
            v1: held_view(self.v1),
            v4_stale: self.v4_stale@,
            v1_stale: self.v1_stale@,
        }
    }
}

/// Nothing is known of the decoder.
pub open spec fn fresh_roll() -> RollView {
    RollView {
        v4: None,
        v1: None,
        v4_stale: Seq::new(256, |i: int| 0u16),
        v1_stale: Seq::new(256, |i: int| 0u16),
    }
}

/// The codebook held for `which`, with its size.
pub open spec fn held(r: RollView, which: WhichCodebook) -> Option<(Seq<CodebookEntry>, nat)> {
    match which {
        WhichCodebook::V4 => r.v4,
        WhichCodebook::V1 => r.v1,
    }
}

/// The codebook held for `which`, where its size is `n`.
pub open spec fn held_of_size(r: RollView, which: WhichCodebook, n: nat) -> Option<
    Seq<CodebookEntry>,
> {
    match held(r, which) {
        Some((cb, k)) => if k == n {
            Some(cb)
        } else {
            None
        },
        None => None,
    }
}

/// The state with the codebook for `which` replaced.
pub open spec fn with_held(
    r: RollView,
    which: WhichCodebook,
    cb: Seq<CodebookEntry>,
    n: nat,
) -> RollView {
    match which {
        WhichCodebook::V4 => RollView { v4: Some((cb, n)), ..r },
        WhichCodebook::V1 => RollView { v1: Some((cb, n)), ..r },
    }
}

/// For how many frames the entries for `which` went unused.
pub open spec fn stale(r: RollView, which: WhichCodebook) -> Seq<u16> {
    match which {
        WhichCodebook::V4 => r.v4_stale,
        WhichCodebook::V1 => r.v1_stale,
    }
}

/// The state with the counts for `which` replaced.
pub open spec fn with_stale(r: RollView, which: WhichCodebook, s: Seq<u16>) -> RollView {
    match which {
        WhichCodebook::V4 => RollView { v4_stale: s, ..r },
        WhichCodebook::V1 => RollView { v1_stale: s, ..r },
    }
}

/// The counts after a frame: zero for a used entry, one more for an unused
/// one. Entries from `n` on keep theirs, and counts end at the largest
/// number.
pub open spec fn aged(s: Seq<u16>, used: Seq<bool>, n: int) -> Seq<u16> {
    Seq::new(
        256,
        |i: int|
            if i >= n {
                s[i]
            } else if used[i] {
                0
            } else if s[i] == u16::MAX {
                u16::MAX
            } else {
                (s[i] + 1) as u16
            },
    )
}

/// The counts with those of the first `k` of `slots` at zero.
pub open spec fn renewed(s: Seq<u16>, slots: Seq<u8>, k: int) -> Seq<u16>
    decreases k,
{
    if k <= 0 {
        s
    } else {
        renewed(s, slots, k - 1).update(slots[k - 1] as int, 0)
    }
}

impl RollingCodebooks {
    /// The counts have one place for each entry, and the codebooks are whole.
    pub open spec fn wf(self) -> bool {
        roll_wf(self@)
    }

    /// A state in which nothing is known of the decoder.
    pub fn new() -> (r: Self)
        ensures
            r@ == fresh_roll(),
            r.wf(),
    {
        let r = RollingCodebooks { v4: None, v1: None, v4_stale: [0u16;256], v1_stale: [0u16;256] };
        assert(r@.v4_stale =~= fresh_roll().v4_stale);
        assert(r@.v1_stale =~= fresh_roll().v1_stale);
        r
    }

    fn held_ref(&self, which: WhichCodebook) -> (r: &Option<(Codebook, usize)>)
        ensures
            held_view(*r) == held(self@, which),
    {
        match which {
            WhichCodebook::V4 => &self.v4,
            WhichCodebook::V1 => &self.v1,
        }
    }

    /// A copy of the codebook held for `which`, where its size is `n`.
    pub fn get(&self, which: WhichCodebook, n: usize) -> (r: Option<Codebook>)
        ensures
            match r {
                Some(cb) => held_of_size(self@, which, n as nat) == Some(cb@),
                None => held_of_size(self@, which, n as nat) is None,
            },
    {
        match self.held_ref(which) {
            Some((cb, k)) => if *k == n {
                Some(cb.clone())
            } else {
                None
            },
            None => None,
        }
    }

    /// Replaces the codebook for `which`.
    pub fn set(&mut self, which: WhichCodebook, cb: Codebook, n: usize)
        requires
            old(self).wf(),
        ensures
            final(self)@ == with_held(old(self)@, which, cb@, n as nat),
            final(self).wf(),
    {
        match which {
            WhichCodebook::V4 => self.v4 = Some((cb, n)),
            WhichCodebook::V1 => self.v1 = Some((cb, n)),
        }
    }

    /// Counts a frame in which the entries in `used` were used.
    pub fn update_staleness(&mut self, which: WhichCodebook, used: &[bool; 256], n: usize)
        requires
            old(self).wf(),
        ensures
            final(self)@ == with_stale(
                old(self)@,
                which,
                aged(stale(old(self)@, which), used@, n as int),
            ),
            final(self).wf(),
    {
        let ghost before = self@;
        let s = self.staleness(which);
        let out = age(&s, used, n);
        match which {
            WhichCodebook::V4 => self.v4_stale = out,
            WhichCodebook::V1 => self.v1_stale = out,
        }
    }

    /// For how many frames the entries for `which` went unused.
    pub fn staleness(&self, which: WhichCodebook) -> (r: [u16; 256])
        ensures
            r@ == stale(self@, which),
    {
        match which {
            WhichCodebook::V4 => self.v4_stale,
            WhichCodebook::V1 => self.v1_stale,
        }
    }

    /// Starts the counts of `slots` anew.
    pub fn reset_staleness(&mut self, which: WhichCodebook, slots: &[u8])
        requires
            old(self).wf(),
        ensures
            final(self)@ == with_stale(
                old(self)@,
                which,
                renewed(stale(old(self)@, which), slots@, slots@.len() as int),
            ),
            final(self).wf(),
    {
        let mut s = self.staleness(which);
        let ghost first = s@;
        let mut i: usize = 0;
        while i < slots.len()
            invariant
                i <= slots@.len(),
                s@.len() == 256,
                s@ == renewed(first, slots@, i as int),
            decreases slots@.len() - i,
        {
            s[slots[i] as usize] = 0;
            i = i + 1;
        }
        match which {
            WhichCodebook::V4 => self.v4_stale = s,
            WhichCodebook::V1 => self.v1_stale = s,
        }
    }
}

impl Clone for RollingCodebooks {
    fn clone(&self) -> (r: Self)
        ensures
            r@ == self@,
    {
        RollingCodebooks {
            v4: copy_held(&self.v4),
            v1: copy_held(&self.v1),
            v4_stale: self.v4_stale,
            v1_stale: self.v1_stale,
        }
    }
}

fn copy_held(h: &Option<(Codebook, usize)>) -> (r: Option<(Codebook, usize)>)
    ensures
        held_view(r) == held_view(*h),
{
    match h {
        Some((cb, n)) => Some((cb.clone(), *n)),
        None => None,
    }
}

fn age(s: &[u16; 256], used: &[bool; 256], n: usize) -> (r: [u16; 256])
    ensures
        r@ == aged(s@, used@, n as int),
{
    let mut out = *s;
    let mut i: usize = 0;
    while i < 256 && i < n
        invariant
            i <= 256,
            out@.len() == 256,
            s@.len() == 256,
            used@.len() == 256,
            forall|j: int| 0 <= j < i ==> out@[j] == aged(s@, used@, n as int)[j],
            forall|j: int| i <= j < 256 ==> out@[j] == s@[j],
        decreases 256 - i,
    {
        if used[i] {
            out[i] = 0;
        } else if out[i] < u16::MAX {
            out[i] = out[i] + 1;
        }
        i = i + 1;
    }
    assert(out@ =~= aged(s@, used@, n as int));
    out
}

/// The counts have one place for each entry, and the codebooks are whole.
pub open spec fn roll_wf(r: RollView) -> bool {
    &&& r.v4_stale.len() == 256
    &&& r.v1_stale.len() == 256
    &&& r.v4 matches Some((cb, _)) ==> cb.len() == 256
    &&& r.v1 matches Some((cb, _)) ==> cb.len() == 256
}

/// Whether a macroblock uses V4 entry `slot`.
pub open spec fn mb_uses_v4(mb: Mb, slot: int) -> bool {
    match mb {
        Mb::V4(x) => x[0] == slot || x[1] == slot || x[2] == slot || x[3] == slot,
        _ => false,
    }
}

/// Whether a macroblock uses V1 entry `slot`.
pub open spec fn mb_uses_v1(mb: Mb, slot: int) -> bool {
    mb matches Mb::V1(x) && x == slot
}

/// The V4 entries that macroblocks use.
pub open spec fn used_v4(mbs: Seq<Mb>) -> Seq<bool> {
    Seq::new(
        256,
        |s: int| exists|i: int| 0 <= i < mbs.len() && mb_uses_v4(#[trigger] mbs[i], s),
    )
}

/// The V1 entries that macroblocks use.
pub open spec fn used_v1(mbs: Seq<Mb>) -> Seq<bool> {
    Seq::new(
        256,
        |s: int| exists|i: int| 0 <= i < mbs.len() && mb_uses_v1(#[trigger] mbs[i], s),
    )
}

/// The V4 entries that macroblocks use.
pub fn used_v4_slots(mbs: &[Mb]) -> (r: [bool; 256])
    ensures
        r@ == used_v4(mbs@),
{
    let mut used = [false;256];
    let mut k: usize = 0;
    while k < mbs.len()
        invariant
            k <= mbs@.len(),
            used@.len() == 256,
            forall|s: int|
                0 <= s < 256 ==> #[trigger] used@[s] == exists|i: int|
                    0 <= i < k && mb_uses_v4(#[trigger] mbs@[i], s),
        decreases mbs@.len() - k,
    {
        let ghost before = used@;
        if let Mb::V4(x) = mbs[k] {
            used[x[0] as usize] = true;
            used[x[1] as usize] = true;
            used[x[2] as usize] = true;
            used[x[3] as usize] = true;
        }
        assert forall|s: int| 0 <= s < 256 implies #[trigger] used@[s] == exists|i: int|
            0 <= i < k + 1 && mb_uses_v4(#[trigger] mbs@[i], s) by {
            assert(used@[s] == (before[s] || mb_uses_v4(mbs@[k as int], s)));
            if mb_uses_v4(mbs@[k as int], s) {
            } else if before[s] {
                let i = choose|i: int| 0 <= i < k && mb_uses_v4(#[trigger] mbs@[i], s);
                assert(mb_uses_v4(mbs@[i], s));
            }
        }
        k = k + 1;
    }
    assert(used@ =~= used_v4(mbs@));
    used
}

/// The V1 entries that macroblocks use.
pub fn used_v1_slots(mbs: &[Mb]) -> (r: [bool; 256])
    ensures
        r@ == used_v1(mbs@),
{
    let mut used = [false;256];
    let mut k: usize = 0;
    while k < mbs.len()
        invariant
            k <= mbs@.len(),
            used@.len() == 256,
            forall|s: int|
                0 <= s < 256 ==> #[trigger] used@[s] == exists|i: int|
                    0 <= i < k && mb_uses_v1(#[trigger] mbs@[i], s),
        decreases mbs@.len() - k,
    {
        let ghost before = used@;
        if let Mb::V1(x) = mbs[k] {
            used[x as usize] = true;
        }
        assert forall|s: int| 0 <= s < 256 implies #[trigger] used@[s] == exists|i: int|
            0 <= i < k + 1 && mb_uses_v1(#[trigger] mbs@[i], s) by {
            assert(used@[s] == (before[s] || mb_uses_v1(mbs@[k as int], s)));
            if mb_uses_v1(mbs@[k as int], s) {
            } else if before[s] {
                let i = choose|i: int| 0 <= i < k && mb_uses_v1(#[trigger] mbs@[i], s);
                assert(mb_uses_v1(mbs@[i], s));
            }
        }
        k = k + 1;
    }
    assert(used@ =~= used_v1(mbs@));
    used
}

/// The used entries among the first `k` that the decoder does not hold yet,
/// ascending.
pub open spec fn outdated(
    prev: Option<Seq<CodebookEntry>>,
    cb: Seq<CodebookEntry>,
    used: Seq<bool>,
    k: int,
) -> Seq<u8>
    decreases k,
{
    if k <= 0 {
        Seq::empty()
    } else if used[k - 1] && (prev is None || prev->0[k - 1] != cb[k - 1]) {
        outdated(prev, cb, used, k - 1).push((k - 1) as u8)
    } else {
        outdated(prev, cb, used, k - 1)
    }
}

/// The outdated entries ascend, and are those that are used and differ.
pub proof fn outdated_order(
    prev: Option<Seq<CodebookEntry>>,
    cb: Seq<CodebookEntry>,
    used: Seq<bool>,
    k: int,
)
    requires
        0 <= k <= 256,
    ensures
        codebook::ascending(outdated(prev, cb, used, k)),
        outdated(prev, cb, used, k).len() <= k,
        forall|i: int|
            0 <= i < outdated(prev, cb, used, k).len() ==> #[trigger] outdated(
                prev,
                cb,
                used,
                k,
            )[i] < k,
        forall|s: int|
            #![trigger used[s]]
            0 <= s < k ==> outdated(prev, cb, used, k).contains(s as u8) == (used[s] && (prev
                is None || prev->0[s] != cb[s])),
    decreases k,
{
    if k > 0 {
        outdated_order(prev, cb, used, k - 1);
        let before = outdated(prev, cb, used, k - 1);
        let now = outdated(prev, cb, used, k);
        assert forall|s: int| #![trigger used[s]] 0 <= s < k implies now.contains(s as u8) == (
        used[s] && (prev is None || prev->0[s] != cb[s])) by {
            if before.contains(s as u8) {
                let i = choose|i: int| 0 <= i < before.len() && before[i] == s as u8;
                assert(now[i] == s as u8);
            }
            if now.contains(s as u8) {
                let i = choose|i: int| 0 <= i < now.len() && now[i] == s as u8;
                if i < before.len() {
                    assert(before[i] == s as u8);
                }
            }
            if s == k - 1 && now.len() > before.len() {
                assert(now[before.len() as int] == s as u8);
            }
        }
    }
}

/// Bytes of a full update.
pub open spec fn full_size(mode: PixelMode, n: nat) -> int {
    CHUNK_HEADER_SIZE + n * codebook::entry_bytes_len(mode)
}

/// Bytes of a selective update of `slots`.
pub open spec fn selective_size(mode: PixelMode, slots: Seq<u8>) -> int {
    CHUNK_HEADER_SIZE + codebook::group_count(slots) * 4 + slots.len() * codebook::entry_bytes_len(mode)
}

/// A codebook update to emit.
pub struct Update {
    pub mode: PixelMode,
    pub which: WhichCodebook,
    pub cb: Seq<CodebookEntry>,
    pub n: nat,
    /// Whether selective updates may be emitted.
    pub selective: bool,
    pub used: Seq<bool>,
    /// Whether the update must be a full one.
    pub force_full: bool,
}

/// A codebook with the entries of `slots` taken from another.
pub open spec fn patched(
    prev: Seq<CodebookEntry>,
    cb: Seq<CodebookEntry>,
    slots: Seq<u8>,
) -> Seq<CodebookEntry> {
    Seq::new(
        256,
        |i: int|
            if slots.contains(i as u8) {
                cb[i]
            } else {
                prev[i]
            },
    )
}

/// What is emitted for an update, and the codebook that the decoder holds
/// after it. Unless updates may be selective, that is all the entries. Else
/// nothing is emitted where the decoder holds every used entry already, and
/// otherwise the shorter of a selective and a full update.
pub open spec fn emitted(u: Update, r: RollView) -> (Seq<u8>, Seq<CodebookEntry>) {
    let prev = held_of_size(r, u.which, u.n);
    let slots = outdated(prev, u.cb, u.used, u.n as int);
    let full = codebook::full_chunk(
        CodebookChunkKind { which: u.which, style: UpdateStyle::Full, mode: u.mode },
        u.cb,
        u.n,
    );
    if u.force_full || !u.selective {
        (full, u.cb)
    } else if prev is Some && slots.len() == 0 {
        (Seq::empty(), prev->0)
    } else if prev is Some && selective_size(u.mode, slots) < full_size(u.mode, u.n) {
        (
            codebook::selective_chunk(
                CodebookChunkKind { which: u.which, style: UpdateStyle::Selective, mode: u.mode },
                u.cb,
                slots,
            ),
            patched(prev->0, u.cb, slots),
        )
    } else {
        (full, u.cb)
    }
}

/// The entries behind an optional codebook.
pub open spec fn owned_view(cb: Option<Codebook>) -> Option<Seq<CodebookEntry>> {
    match cb {
        Some(c) => Some(c@),
        None => None,
    }
}

fn find_outdated(prev: &Option<Codebook>, cb: &Codebook, used: &[bool; 256], n: usize) -> (r: Vec<
    u8,
>)
    requires
        n <= 256,
    ensures
        r@ == outdated(owned_view(*prev), cb@, used@, n as int),
{
    let ghost p = owned_view(*prev);
    let mut out: Vec<u8> = Vec::new();
    let mut i: usize = 0;
    while i < n
        invariant
            i <= n <= 256,
            p == owned_view(*prev),
            used@.len() == 256,
            out@ == outdated(p, cb@, used@, i as int),
        decreases n - i,
    {
        if used[i] {
            let differs = match prev {
                Some(q) => q.entries[i] != cb.entries[i],
                None => true,
            };
            if differs {
                out.push(i as u8);
            }
        }
        i = i + 1;
    }
    out
}

/// Emits a codebook update: in full, selectively, or not at all.
pub fn emit_codebook_chunk_one(
    mode: PixelMode,
    which: WhichCodebook,
    cb: &Codebook,
    n: usize,
    roll: &mut RollingCodebooks,
    selective_enabled: bool,
    used: &[bool; 256],
    force_full: bool,
    out: &mut Vec<u8>,
)
    requires
        n <= 256,
        old(roll).wf(),
    ensures
        ({
            let u = Update {
                mode,
                which,
                cb: cb@,
                n: n as nat,
                selective: selective_enabled,
                used: used@,
                force_full,
            };
            let e = emitted(u, old(roll)@);
            &&& final(out)@ == old(out)@ + e.0
            &&& final(roll)@ == with_held(old(roll)@, which, e.1, n as nat)
        }),
        final(roll).wf(),
{
    let ghost start = out@;
    let full = CodebookChunkKind { which, style: UpdateStyle::Full, mode };
    if force_full || !selective_enabled {
        encode_full_chunk(full, cb, n, out);
        roll.set(which, cb.clone(), n);
        return;
    }
    let prev = roll.get(which, n);
    let slots = find_outdated(&prev, cb, used, n);
    let ghost p = owned_view(prev);
    proof {
        outdated_order(p, cb@, used@, n as int);
    }
    match prev {
        Some(prev_cb) => {
            if slots.len() == 0 {
                assert(out@ =~= start + Seq::<u8>::empty());
                roll.set(which, prev_cb, n);
                return;
            }
            let entry_size: usize = mode.entry_size();
            let last: usize = slots[slots.len() - 1] as usize;
            let groups: usize = last / 32 + 1;
            assert(slots@.len() * entry_size <= 256 * 6) by (nonlinear_arith)
                requires
                    slots@.len() <= 256,
                    entry_size <= 6,
            ;
            assert(n * entry_size <= 256 * 6) by (nonlinear_arith)
                requires
                    n <= 256,
                    entry_size <= 6,
            ;
            let short: usize = CHUNK_HEADER_SIZE + groups * 4 + slots.len() * entry_size;
            let long: usize = CHUNK_HEADER_SIZE + n * entry_size;
            if short < long {
                let kind = CodebookChunkKind { which, style: UpdateStyle::Selective, mode };
                encode_selective_chunk(kind, cb, slots.as_slice(), out);
                let next = patch(&prev_cb, cb, slots.as_slice());
                roll.set(which, next, n);
                return;
            }
        },
        None => {},
    }
    encode_full_chunk(full, cb, n, out);
    roll.set(which, cb.clone(), n);
}

fn patch(prev: &Codebook, cb: &Codebook, slots: &[u8]) -> (r: Codebook)
    ensures
        r@ == patched(prev@, cb@, slots@),
{
    let mut out = prev.clone();
    let mut k: usize = 0;
    while k < slots.len()
        invariant
            k <= slots@.len(),
            out@.len() == 256,
            prev@.len() == 256,
            cb@.len() == 256,
            forall|i: int|
                0 <= i < 256 ==> #[trigger] out@[i] == if exists|j: int|
                    0 <= j < k && slots@[j] == i {
                    cb@[i]
                } else {
                    prev@[i]
                },
        decreases slots@.len() - k,
    {
        let ghost before = out@;
        let s: usize = slots[k] as usize;
        out.entries[s] = cb.entries[s];
        assert forall|i: int| 0 <= i < 256 implies #[trigger] out@[i] == if exists|j: int|
            0 <= j < k + 1 && slots@[j] == i {
            cb@[i]
        } else {
            prev@[i]
        } by {
            if i == s {
                assert(slots@[k as int] == i);
            } else {
                assert(out@[i] == before[i]);
                if exists|j: int| 0 <= j < k + 1 && slots@[j] == i {
                    let j = choose|j: int| 0 <= j < k + 1 && slots@[j] == i;
                    assert(0 <= j < k && slots@[j] == i);
                }
            }
        }
        k = k + 1;
    }
    assert forall|i: int| 0 <= i < 256 implies #[trigger] out@[i] == patched(prev@, cb@, slots@)[i] by {
        if slots@.contains(i as u8) {
            let j = choose|j: int| 0 <= j < slots@.len() && slots@[j] == i as u8;
            assert(slots@[j] == i);
        } else if exists|j: int| 0 <= j < slots@.len() && slots@[j] == i {
            let j = choose|j: int| 0 <= j < slots@.len() && slots@[j] == i;
            assert(slots@[j] == i as u8);
        }
    }
    assert(out@ =~= patched(prev@, cb@, slots@));
    out
}

/// After an update the decoder holds every entry that the macroblocks use,
/// whichever way the update was emitted.
pub proof fn used_entries_held(u: Update, r: RollView, slot: int)
    requires
        u.cb.len() == 256,
        u.n <= 256,
        u.used.len() == 256,
        0 <= slot < u.n,
        u.used[slot],
    ensures
        emitted(u, r).1[slot] == u.cb[slot],
{
    let prev = held_of_size(r, u.which, u.n);
    outdated_order(prev, u.cb, u.used, u.n as int);
    let slots = outdated(prev, u.cb, u.used, u.n as int);
    assert(slots.contains(slot as u8) == (u.used[slot] && (prev is None || prev->0[slot]
        != u.cb[slot])));
    if slots.len() == 0 {
        assert(!slots.contains(slot as u8));
    }
}

/// Where updates may not be selective, all the entries are emitted, whatever
/// the decoder holds.
pub proof fn whole_unless_selective(u: Update, r: RollView)
    requires
        !u.selective,
    ensures
        emitted(u, r) == (
            codebook::full_chunk(
                CodebookChunkKind { which: u.which, style: UpdateStyle::Full, mode: u.mode },
                u.cb,
                u.n,
            ),
            u.cb,
        ),
{
}

} // verus!
