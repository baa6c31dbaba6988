//! The records the application keeps and shows: rooms, file offers,
//! transfer progress, the transfers being received and the offers being
//! served, and the human-readable size of a file.
use crate::table::OfferTable;
use crate::text::{decimal, digit, digit_char, push_decimal, push_char, push_text};
use std::collections::HashSet;
use vstd::prelude::*;

verus! {

/// A joined room as listed to the user.
#[derive(Debug, Clone)]
pub struct RoomSummary {
    pub room_id: String,
    pub name: String,
    pub member_count: u64,
}

/// A file offer seen in a room, with who sent it and where.
#[derive(Debug, Clone)]
pub struct FileOfferData {
    pub offer_id: String,
    pub filename: String,
    pub size: u64,
    pub mimetype: String,
    pub sha256: String,
    pub description: Option<String>,
    pub sender_user_id: String,
    pub sender_device_id: Option<String>,
    pub room_id: String,
    pub iroh_ticket: Option<String>,
}

/// How far a transfer has come.
#[derive(Debug, Clone)]
pub struct TransferProgress {
    pub offer_id: String,
    pub bytes_transferred: u64,
    pub total_bytes: u64,
    pub status: String,
}

/// A file being received chunk by chunk.
#[derive(Debug)]
pub struct ActiveTransfer {
    pub offer_id: String,
    pub filename: String,
    pub total_size: u64,
    pub sha256: String,
    pub chunks_received: HashSet<u32>,
    pub total_chunks: u32,
    pub data: Vec<u8>,
    pub save_path: String,
}

/// A file this side has offered and serves on request.
#[derive(Debug, Clone)]
pub struct PendingOffer {
    pub offer_id: String,
    pub file_path: String,
    pub room_id: String,
    pub sha256: String,
    pub size: u64,
}

/// The transfers being received, by offer identifier.
pub type ActiveTransfers = OfferTable<ActiveTransfer>;

/// The offers being served, by offer identifier.
pub type PendingOffers = OfferTable<PendingOffer>;

/// The abstract state of a transfer being received.
pub struct TransferModel {
    pub offer_id: Seq<char>,
    pub filename: Seq<char>,
    pub total_size: u64,
    pub sha256: Seq<char>,
    pub received: Set<u32>,
    pub total_chunks: u32,
    pub data: Seq<u8>,
    pub save_path: Seq<char>,
}

impl View for ActiveTransfer {
    type V = TransferModel;

    open spec fn view(&self) -> TransferModel {
        TransferModel {
            offer_id: self.offer_id@,
            filename: self.filename@,
            total_size: self.total_size,
            sha256: self.sha256@,
            received: self.chunks_received@,
            total_chunks: self.total_chunks,
            data: self.data@,
            save_path: self.save_path@,
        }
    }
}

/// `p` has these fields.
pub open spec fn progress_is(
    p: TransferProgress,
    offer_id: Seq<char>,
    bytes: u64,
    total: u64,
    status: Seq<char>,
) -> bool {
    &&& p.offer_id@ == offer_id
    &&& p.bytes_transferred == bytes
    &&& p.total_bytes == total
    &&& p.status@ == status
}

/// A progress record.
pub fn make_progress(offer_id: &str, bytes: u64, total: u64, status: &str) -> (r:
    TransferProgress)
    ensures
        progress_is(r, offer_id@, bytes, total, status@),
{
    TransferProgress {
        offer_id: crate::text::owned(offer_id),
        bytes_transferred: bytes,
        total_bytes: total,
        status: crate::text::owned(status),
    }
}

/// `num / den` rounded to the nearest integer, ties to the even one.
pub open spec fn round_half_even(num: nat, den: nat) -> nat
    recommends
        den > 0,
{
    let q = num / den;
    let r = num % den;
    if 2 * r > den || (2 * r == den && q % 2 == 1) {
        q + 1
    } else {
        q
    }
}

/// The spacing of the 64-bit floats around `w * u`, found by halving `w`
/// until it has at most 53 significant bits and doubling `u` as often.
pub open spec fn float_spacing(w: nat, u: nat) -> nat
    decreases w,
{
    if w < 0x20_0000_0000_0000 {
        u
    } else {
        float_spacing(w / 2, 2 * u)
    }
}

/// The 64-bit float nearest to `v` (ties to an even significand), which is
/// what `v as f64` gives for an integer.
pub open spec fn nearest_float(v: nat) -> nat {
    let u = float_spacing(v, 1);
    u * round_half_even(v, u)
}

/// Tenths `t` written with one decimal place.
pub open spec fn tenths_text(t: nat) -> Seq<char> {
    decimal(t / 10) + "."@ + seq![digit_char(t % 10)]
}

/// The size `bytes` as the application shows it: plain bytes below 1 KiB,
/// else KiB, MiB or GiB with one decimal, rounded as float formatting
/// rounds (the quotient of the nearest float by a power of two is exact).
pub open spec fn size_text(bytes: nat) -> Seq<char> {
    if bytes < 1024 {
        decimal(bytes) + " B"@
    } else if bytes < 1048576 {
        tenths_text(round_half_even(10 * bytes, 1024)) + " KB"@
    } else if bytes < 1073741824 {
        tenths_text(round_half_even(10 * bytes, 1048576)) + " MB"@
    } else {
        tenths_text(round_half_even(10 * nearest_float(bytes), 1073741824)) + " GB"@
    }
}

/// `num / den` rounded half to even.
fn div_round_half_even(num: u128, den: u128) -> (r: u128)
    requires
        den > 0,
        num <= u128::MAX / 2,
        den <= u128::MAX / 2,
    ensures
        r == round_half_even(num as nat, den as nat),
{
    let q = num / den;
    let r = num % den;
    if 2 * r > den || (2 * r == den && q % 2 == 1) {
        assert(q < u128::MAX) by (nonlinear_arith)
            requires
                q == num / den,
                den > 0,
                num <= u128::MAX / 2,
        ;
        q + 1
    } else {
        q
    }
}

/// The float spacing around `v`.
fn spacing_of(v: u64) -> (r: u64)
    ensures
        r == float_spacing(v as nat, 1),
        1 <= r <= 4096,
{
    let mut w = v;
    let mut u: u64 = 1;
    while w >= 0x20_0000_0000_0000
        invariant
            float_spacing(v as nat, 1) == float_spacing(w as nat, u as nat),
            1 <= u,
            w as int * u as int <= v,
            v < 0x1_0000_0000_0000_0000,
            w < 0x20_0000_0000_0000 ==> u <= 4096,
            w >= 0x20_0000_0000_0000 ==> u * 0x20_0000_0000_0000 <= v,
        decreases w,
    {
        assert(u * 2 * 0x20_0000_0000_0000 <= 2 * v) by (nonlinear_arith)
            requires
                u * 0x20_0000_0000_0000 <= v,
        ;
        assert((w / 2) as int * (u * 2) <= w as int * u as int) by (nonlinear_arith)
            requires
                w >= 0,
                u >= 1,
        ;
        w = w / 2;
        u = u * 2;
        if w >= 0x20_0000_0000_0000 {
            assert(u * 0x20_0000_0000_0000 <= v) by (nonlinear_arith)
                requires
                    w >= 0x20_0000_0000_0000,
                    w as int * u as int <= v,
            ;
        } else {
            assert(u <= 4096) by (nonlinear_arith)
                requires
                    (u / 2) * 0x20_0000_0000_0000 <= v,
                    v < 0x1_0000_0000_0000_0000,
                    u % 2 == 0,
            ;
        }
    }
    u
}

/// Appends `t` tenths with one decimal place.
fn push_tenths(out: &mut String, t: u128)
    requires
        t <= u64::MAX,
    ensures
        final(out)@ == old(out)@ + tenths_text(t as nat),
{
    push_decimal(out, (t / 10) as u64);
    push_text(out, ".");
    push_char(out, digit((t % 10) as u64));
}

/// Formats a byte count for people, e.g. `1536` as `1.5 KB`.
pub fn format_bytes(bytes: u64) -> (r: String)
    ensures
        r@ == size_text(bytes as nat),
{
    let mut out = String::new();
    if bytes < 1024 {
        push_decimal(&mut out, bytes);
        push_text(&mut out, " B");
    } else if bytes < 1048576 {
        let t = div_round_half_even(10 * (bytes as u128), 1024);
        assert(t <= 10240) by (nonlinear_arith)
            requires
                t == round_half_even(10 * bytes as nat, 1024),
                bytes < 1048576,
        ;
        push_tenths(&mut out, t);
        push_text(&mut out, " KB");
    } else if bytes < 1073741824 {
        let t = div_round_half_even(10 * (bytes as u128), 1048576);
        assert(t <= 10240) by (nonlinear_arith)
            requires
                t == round_half_even(10 * bytes as nat, 1048576),
                bytes < 1073741824,
        ;
        push_tenths(&mut out, t);
        push_text(&mut out, " MB");
    } else {
        let u = spacing_of(bytes);
        let q = div_round_half_even(bytes as u128, u as u128);
        assert(q * u <= 0x1_0000_0000_0000_1000) by (nonlinear_arith)
            requires
                q <= (bytes as int) / (u as int) + 1,
                1 <= u <= 4096,
                bytes < 0x1_0000_0000_0000_0000,
        ;
        let m = q * (u as u128);
        let t = div_round_half_even(10 * m, 1073741824);
        assert(t <= u64::MAX) by (nonlinear_arith)
            requires
                t == round_half_even(10 * m as nat, 1073741824),
                m <= 0x1_0000_0000_0000_1000,
        ;
        push_tenths(&mut out, t);
        push_text(&mut out, " GB");
    }
    out
}

/// The result of rounding `num / den` half to even is the nearest whole
/// number to it, an exact half going to the even one.
proof fn lemma_round_half_even_nearest(num: nat, den: nat)
    requires
        den > 0,
    ensures
        -(den as int) <= 2 * (num - den * round_half_even(num, den)) <= den,
        2 * (num - den * round_half_even(num, den)) == den ==> round_half_even(num, den) % 2 == 0,
        2 * (num - den * round_half_even(num, den)) == -(den as int) ==> round_half_even(num, den)
            % 2 == 0,
{
    let q = num / den;
    let r = num % den;
    assert(num == den * q + r && 0 <= r < den) by (nonlinear_arith)
        requires
            den > 0,
            q == num / den,
            r == num % den,
    ;
    if 2 * r > den || (2 * r == den && q % 2 == 1) {
        assert(num - den * (q + 1) == r - den) by (nonlinear_arith)
            requires
                num == den * q + r,
        ;
    } else {
        assert(num - den * q == r);
    }
}

/// A size is shown in the largest unit it reaches: whole bytes below
/// 1 KiB; then KiB, MiB and GiB with one decimal. In KiB and MiB the tenths
/// shown are the ones nearest the size in that unit, an exact half going
/// to the even tenth.
pub proof fn lemma_size_text_units(bytes: nat)
    ensures
        bytes < 1024 ==> size_text(bytes) == decimal(bytes) + " B"@,
        1024 <= bytes < 1048576 ==> exists|t: nat|
            {
                &&& size_text(bytes) == #[trigger] tenths_text(t) + " KB"@
                &&& tenths_text(t) == decimal(t / 10) + "."@ + seq![digit_char(t % 10)]
                &&& -1024 <= 2 * (10 * bytes - 1024 * t) <= 1024
                &&& (2 * (10 * bytes - 1024 * t) == 1024 || 2 * (10 * bytes - 1024 * t) == -1024)
                    ==> t % 2 == 0
            },
        1048576 <= bytes < 1073741824 ==> exists|t: nat|
            {
                &&& size_text(bytes) == #[trigger] tenths_text(t) + " MB"@
                &&& tenths_text(t) == decimal(t / 10) + "."@ + seq![digit_char(t % 10)]
                &&& -1048576 <= 2 * (10 * bytes - 1048576 * t) <= 1048576
                &&& (2 * (10 * bytes - 1048576 * t) == 1048576 || 2 * (10 * bytes - 1048576 * t)
                    == -1048576) ==> t % 2 == 0
            },
        1073741824 <= bytes ==> exists|t: nat|
            {
                &&& size_text(bytes) == #[trigger] tenths_text(t) + " GB"@
                &&& tenths_text(t) == decimal(t / 10) + "."@ + seq![digit_char(t % 10)]
            },
{
    if 1024 <= bytes < 1048576 {
        let t = round_half_even(10 * bytes, 1024);
        lemma_round_half_even_nearest(10 * bytes, 1024);
        assert(size_text(bytes) == decimal(t / 10) + "."@ + seq![digit_char(t % 10)] + " KB"@);
    }
    if 1048576 <= bytes < 1073741824 {
        let t = round_half_even(10 * bytes, 1048576);
        lemma_round_half_even_nearest(10 * bytes, 1048576);
        assert(size_text(bytes) == decimal(t / 10) + "."@ + seq![digit_char(t % 10)] + " MB"@);
    }
    if 1073741824 <= bytes {
        let t = round_half_even(10 * nearest_float(bytes), 1073741824);
        assert(size_text(bytes) == decimal(t / 10) + "."@ + seq![digit_char(t % 10)] + " GB"@);
    }
}

} // verus!
