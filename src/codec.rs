use vstd::prelude::*;

use crate::error::LedgerError;
use crate::state::{
    Address, CreditSetting, CreditSettings, TokenAccount, UserAccount, UserAccountView, UserCredit,
    MAX_HISTORY,
};

verus! {

/// Bytes taken by the length prefix of a framed record.
pub const PREFIX_LEN: usize = 4;

/// Bytes of an encoded record before its history entries.
pub const HEADER_LEN: usize = 14;

/// Bytes of one encoded history entry.
pub const ENTRY_LEN: usize = 7;

/// The two little-endian bytes of `v`.
pub open spec fn le2(v: u16) -> Seq<u8> {
    seq![(v & 0xff) as u8, (v >> 8) as u8]
}

/// The four little-endian bytes of `v`.
pub open spec fn le4(v: u32) -> Seq<u8> {
    seq![(v & 0xff) as u8, ((v >> 8) & 0xff) as u8, ((v >> 16) & 0xff) as u8, (v >> 24) as u8]
}

/// The four big-endian bytes of `v`.
pub open spec fn be4(v: u32) -> Seq<u8> {
    seq![(v >> 24) as u8, ((v >> 16) & 0xff) as u8, ((v >> 8) & 0xff) as u8, (v & 0xff) as u8]
}

/// One history entry: campaign (2 bytes, little-endian), level (1 byte),
/// day (4 bytes, little-endian).
pub open spec fn encode_entry(e: UserCredit) -> Seq<u8> {
    le2(e.campaign_id) + seq![e.level] + le4(e.day)
}

/// The history entries, one after the other.
pub open spec fn encode_history(h: Seq<UserCredit>) -> Seq<u8>
    decreases h.len(),
{
    if h.len() == 0 {
        Seq::empty()
    } else {
        encode_history(h.drop_last()) + encode_entry(h.last())
    }
}

/// The payload of a participant record: campaign, credit and watermark,
/// then the entry count (4 bytes, little-endian) and the entries.
pub open spec fn encode_account(a: UserAccountView) -> Seq<u8> {
    le2(a.campaign_id) + le4(a.credit) + le4(a.reward_since) + le4(a.history.len() as u32)
        + encode_history(a.history)
}

/// Whether `p` is the payload of record `a`.
pub open spec fn decodes_to(p: Seq<u8>, a: UserAccountView) -> bool {
    a.history.len() <= u32::MAX && encode_account(a) == p
}

/// The record whose payload is `p`, if there is one.
pub open spec fn decode_account(p: Seq<u8>) -> Option<UserAccountView> {
    if exists|a: UserAccountView| decodes_to(p, a) {
        Some(choose|a: UserAccountView| decodes_to(p, a))
    } else {
        None
    }
}

/// The value of four big-endian bytes.
pub open spec fn be_value(b: Seq<u8>) -> u32 {
    ((b[0] as u32) << 24) | ((b[1] as u32) << 16) | ((b[2] as u32) << 8) | (b[3] as u32)
}

/// What a framed slot holds: a 4-byte big-endian length, then that many
/// bytes of payload; whatever follows is ignored.
pub open spec fn read_record(data: Seq<u8>) -> Option<UserAccountView> {
    if data.len() < 4 {
        None
    } else {
        let n = be_value(data) as int;
        if 4 + n > data.len() {
            None
        } else {
            decode_account(data.subrange(4, 4 + n))
        }
    }
}

/// The slot after a framed write of `a` over `dst`: length prefix, payload,
/// and the rest of `dst` untouched.
pub open spec fn write_record(a: UserAccountView, dst: Seq<u8>) -> Seq<u8> {
    let p = encode_account(a);
    be4(p.len() as u32) + p + dst.subrange(4 + p.len() as int, dst.len() as int)
}

proof fn lemma_le2_injective(a: u16, b: u16)
    requires
        le2(a) == le2(b),
    ensures
        a == b,
{
    assert(le2(a)[0] == le2(b)[0]);
    assert(le2(a)[1] == le2(b)[1]);
    assert(a == b) by (bit_vector)
        requires
            (a & 0xff) as u8 == (b & 0xff) as u8,
            (a >> 8) as u8 == (b >> 8) as u8,
    ;
}

proof fn lemma_le4_injective(a: u32, b: u32)
    requires
        le4(a) == le4(b),
    ensures
        a == b,
{
    assert(le4(a)[0] == le4(b)[0]);
    assert(le4(a)[1] == le4(b)[1]);
    assert(le4(a)[2] == le4(b)[2]);
    assert(le4(a)[3] == le4(b)[3]);
    assert(a == b) by (bit_vector)
        requires
            (a & 0xff) as u8 == (b & 0xff) as u8,
            ((a >> 8) & 0xff) as u8 == ((b >> 8) & 0xff) as u8,
            ((a >> 16) & 0xff) as u8 == ((b >> 16) & 0xff) as u8,
            (a >> 24) as u8 == (b >> 24) as u8,
    ;
}

proof fn lemma_be4_value(v: u32)
    ensures
        be_value(be4(v)) == v,
{
    let b = be4(v);
    assert(b[0] == (v >> 24) as u8);
    assert(b[1] == ((v >> 16) & 0xff) as u8);
    assert(b[2] == ((v >> 8) & 0xff) as u8);
    assert(b[3] == (v & 0xff) as u8);
    assert(((((v >> 24) as u8) as u32) << 24) | (((((v >> 16) & 0xff) as u8) as u32) << 16) | ((((
    (v >> 8) & 0xff) as u8) as u32) << 8) | (((v & 0xff) as u8) as u32) == v) by (bit_vector);
}

proof fn lemma_encode_history_len(h: Seq<UserCredit>)
    ensures
        encode_history(h).len() == 7 * h.len(),
    decreases h.len(),
{
    if h.len() > 0 {
        lemma_encode_history_len(h.drop_last());
    }
}

proof fn lemma_encode_history_injective(h1: Seq<UserCredit>, h2: Seq<UserCredit>)
    requires
        h1.len() == h2.len(),
        encode_history(h1) == encode_history(h2),
    ensures
        h1 == h2,
    decreases h1.len(),
{
    if h1.len() > 0 {
        let (front1, front2) = (h1.drop_last(), h2.drop_last());
        lemma_encode_history_len(front1);
        lemma_encode_history_len(front2);
        let (e1, e2) = (encode_history(h1), encode_history(h2));
        let k = 7 * front1.len() as int;
        assert(e1.subrange(0, k) =~= encode_history(front1));
        assert(e2.subrange(0, k) =~= encode_history(front2));
        lemma_encode_history_injective(front1, front2);
        let (x, y) = (h1.last(), h2.last());
        assert(e1.subrange(k, k + 7) =~= encode_entry(x));
        assert(e2.subrange(k, k + 7) =~= encode_entry(y));
        assert(le2(x.campaign_id) =~= encode_entry(x).subrange(0, 2));
        assert(le2(y.campaign_id) =~= encode_entry(y).subrange(0, 2));
        lemma_le2_injective(x.campaign_id, y.campaign_id);
        assert(encode_entry(x)[2] == x.level);
        assert(encode_entry(y)[2] == y.level);
        assert(le4(x.day) =~= encode_entry(x).subrange(3, 7));
        assert(le4(y.day) =~= encode_entry(y).subrange(3, 7));
        lemma_le4_injective(x.day, y.day);
        assert(h1 =~= front1.push(x));
        assert(h2 =~= front2.push(y));
    }
}

/// Distinct records have distinct payloads.
pub proof fn lemma_encoding_injective(a: UserAccountView, b: UserAccountView)
    requires
        decodes_to(encode_account(a), b),
        a.history.len() <= u32::MAX,
    ensures
        a == b,
{
    let (ea, eb) = (encode_account(a), encode_account(b));
    lemma_encode_history_len(a.history);
    lemma_encode_history_len(b.history);
    assert(ea.subrange(0, 2) =~= le2(a.campaign_id));
    assert(eb.subrange(0, 2) =~= le2(b.campaign_id));
    lemma_le2_injective(a.campaign_id, b.campaign_id);
    assert(ea.subrange(2, 6) =~= le4(a.credit));
    assert(eb.subrange(2, 6) =~= le4(b.credit));
    lemma_le4_injective(a.credit, b.credit);
    assert(ea.subrange(6, 10) =~= le4(a.reward_since));
    assert(eb.subrange(6, 10) =~= le4(b.reward_since));
    lemma_le4_injective(a.reward_since, b.reward_since);
    assert(ea.subrange(10, 14) =~= le4(a.history.len() as u32));
    assert(eb.subrange(10, 14) =~= le4(b.history.len() as u32));
    lemma_le4_injective(a.history.len() as u32, b.history.len() as u32);
    assert(ea.subrange(14, ea.len() as int) =~= encode_history(a.history));
    assert(eb.subrange(14, eb.len() as int) =~= encode_history(b.history));
    lemma_encode_history_injective(a.history, b.history);
}

/// A record whose history fits the maximum length, written into a slot
/// large enough for it, reads back as the same record.
pub proof fn lemma_record_round_trip(a: UserAccountView, dst: Seq<u8>)
    requires
        a.valid(),
        dst.len() >= 4 + encode_account(a).len(),
    ensures
        read_record(write_record(a, dst)) == Some(a),
{
    let p = encode_account(a);
    let w = write_record(a, dst);
    lemma_encode_history_len(a.history);
    assert(w.subrange(0, 4) =~= be4(p.len() as u32));
    assert(be_value(w) == be_value(be4(p.len() as u32)));
    lemma_be4_value(p.len() as u32);
    assert(w.subrange(4, 4 + p.len() as int) =~= p);
    assert(decodes_to(p, a));
    let b = choose|b: UserAccountView| decodes_to(p, b);
    lemma_encoding_injective(a, b);
}

fn push_le2(out: &mut Vec<u8>, v: u16)
    ensures
        final(out)@ == old(out)@ + le2(v),
{
    out.push((v & 0xff) as u8);
    out.push((v >> 8) as u8);
    assert(final(out)@ =~= old(out)@ + le2(v));
}

fn push_le4(out: &mut Vec<u8>, v: u32)
    ensures
        final(out)@ == old(out)@ + le4(v),
{
    out.push((v & 0xff) as u8);
    out.push(((v >> 8) & 0xff) as u8);
    out.push(((v >> 16) & 0xff) as u8);
    out.push((v >> 24) as u8);
    assert(final(out)@ =~= old(out)@ + le4(v));
}

pub fn read_le2(data: &[u8], off: usize) -> (r: u16)
    requires
        off + 2 <= data@.len(),
    ensures
        le2(r) == data@.subrange(off as int, off + 2),
{
    let b0 = data[off];
    let b1 = data[off + 1];
    let r: u16 = (b0 as u16) | ((b1 as u16) << 8);
    assert((r & 0xff) as u8 == b0 && (r >> 8) as u8 == b1) by (bit_vector)
        requires
            r == (b0 as u16) | ((b1 as u16) << 8),
    ;
    assert(le2(r) =~= data@.subrange(off as int, off + 2));
    r
}

pub fn read_le4(data: &[u8], off: usize) -> (r: u32)
    requires
        off + 4 <= data@.len(),
    ensures
        le4(r) == data@.subrange(off as int, off + 4),
{
    let b0 = data[off];
    let b1 = data[off + 1];
    let b2 = data[off + 2];
    let b3 = data[off + 3];
    let r: u32 = (b0 as u32) | ((b1 as u32) << 8) | ((b2 as u32) << 16) | ((b3 as u32) << 24);
    assert((r & 0xff) as u8 == b0 && ((r >> 8) & 0xff) as u8 == b1 && ((r >> 16) & 0xff) as u8
        == b2 && (r >> 24) as u8 == b3) by (bit_vector)
        requires
            r == (b0 as u32) | ((b1 as u32) << 8) | ((b2 as u32) << 16) | ((b3 as u32) << 24),
    ;
    assert(le4(r) =~= data@.subrange(off as int, off + 4));
    r
}

/// The payload of a participant record.
pub fn encode_user_account(a: &UserAccount) -> (r: Vec<u8>)
    requires
        a.history@.len() <= u32::MAX,
    ensures
        r@ == encode_account(a@),
{
    let mut out: Vec<u8> = Vec::new();
    push_le2(&mut out, a.campaign_id);
    push_le4(&mut out, a.credit);
    push_le4(&mut out, a.reward_since);
    push_le4(&mut out, a.history.len() as u32);
    let ghost header = out@;
    let n = a.history.len();
    let mut i: usize = 0;
    while i < n
        invariant
            n == a.history@.len(),
            0 <= i <= n,
            out@ == header + encode_history(a.history@.subrange(0, i as int)),
        decreases n - i,
    {
        let e = a.history[i];
        push_le2(&mut out, e.campaign_id);
        out.push(e.level);
        push_le4(&mut out, e.day);
        let ghost done = a.history@.subrange(0, i + 1);
        assert(done.drop_last() =~= a.history@.subrange(0, i as int));
        assert(out@ =~= header + encode_history(done));
        i = i + 1;
    }
    assert(a.history@.subrange(0, n as int) =~= a.history@);
    assert(out@ =~= encode_account(a@));
    out
}

/// Reads a record payload from `len` bytes of `data` at `start`.
fn decode_payload(data: &[u8], start: usize, len: usize) -> (r: Result<UserAccount, LedgerError>)
    requires
        start + len <= data@.len(),
    ensures
        match r {
            Ok(a) => decodes_to(data@.subrange(start as int, start + len), a@),
            Err(e) => e == LedgerError::CorruptRecord && decode_account(
                data@.subrange(start as int, start + len),
            ) is None,
        },
{
    let ghost p = data@.subrange(start as int, start + len);
    let total = data.len();
    if len < HEADER_LEN {
        proof {
            assert forall|a: UserAccountView| !#[trigger] decodes_to(p, a) by {
                if decodes_to(p, a) {
                    assert(encode_account(a).len() >= 14);
                }
            }
        }
        return Err(LedgerError::CorruptRecord);
    }
    let campaign_id = read_le2(data, start);
    let credit = read_le4(data, start + 2);
    let reward_since = read_le4(data, start + 6);
    let count = read_le4(data, start + 10);
    assert(p.subrange(0, 2) =~= data@.subrange(start as int, start + 2));
    assert(p.subrange(2, 6) =~= data@.subrange(start + 2, start + 6));
    assert(p.subrange(6, 10) =~= data@.subrange(start + 6, start + 10));
    assert(p.subrange(10, 14) =~= data@.subrange(start + 10, start + 14));
    if (len - HEADER_LEN) as u64 != count as u64 * ENTRY_LEN as u64 {
        proof {
            assert forall|a: UserAccountView| !#[trigger] decodes_to(p, a) by {
                if decodes_to(p, a) {
                    let e = encode_account(a);
                    lemma_encode_history_len(a.history);
                    assert(e.len() == 14 + 7 * a.history.len());
                    assert(e.subrange(10, 14) =~= le4(a.history.len() as u32));
                    assert(p.subrange(10, 14) == le4(count));
                    lemma_le4_injective(count, a.history.len() as u32);
                    assert(count as int == a.history.len());
                    assert(len == 14 + 7 * count);
                }
            }
        }
        return Err(LedgerError::CorruptRecord);
    }
    let mut history: Vec<UserCredit> = Vec::new();
    let mut k: u32 = 0;
    while k < count
        invariant
            start + len <= data@.len(),
            total == data@.len(),
            len == HEADER_LEN + ENTRY_LEN * count,
            p == data@.subrange(start as int, start + len),
            0 <= k <= count,
            history@.len() == k,
            encode_history(history@) == p.subrange(14, 14 + 7 * k),
        decreases count - k,
    {
        let off = start + HEADER_LEN + ENTRY_LEN * (k as usize);
        let c = read_le2(data, off);
        let level = data[off + 2];
        let day = read_le4(data, off + 3);
        let e = UserCredit { campaign_id: c, level, day };
        let ghost before = history@;
        history.push(e);
        assert(history@.drop_last() =~= before);
        assert(encode_entry(e) =~= data@.subrange(off as int, off + 7));
        assert(encode_history(history@) =~= p.subrange(14, 14 + 7 * (k + 1)));
        k = k + 1;
    }
    let a = UserAccount { campaign_id, credit, reward_since, history };
    assert(le4(a@.history.len() as u32) == le4(count));
    assert(encode_account(a@) =~= p);
    Ok(a)
}

impl UserAccount {
    /// Reads a framed participant record: a 4-byte big-endian length, then a
    /// payload of exactly that many bytes; anything after it is ignored.
    pub fn unpack(data: &[u8]) -> (r: Result<Self, LedgerError>)
        ensures
            match r {
                Ok(a) => read_record(data@) == Some(a@),
                Err(e) => e == LedgerError::CorruptRecord && read_record(data@) is None,
            },
    {
        let total = data.len();
        if total < PREFIX_LEN {
            return Err(LedgerError::CorruptRecord);
        }
        let n: u32 = ((data[0] as u32) << 24) | ((data[1] as u32) << 16) | ((data[2] as u32) << 8) | (
        data[3] as u32);
        assert(n == be_value(data@));
        if n as usize > total - PREFIX_LEN {
            return Err(LedgerError::CorruptRecord);
        }
        let ghost p = data@.subrange(4, 4 + n as int);
        match decode_payload(data, PREFIX_LEN, n as usize) {
            Ok(a) => {
                proof {
                    let b = choose|b: UserAccountView| decodes_to(p, b);
                    lemma_encoding_injective(a@, b);
                }
                Ok(a)
            },
            Err(e) => Err(e),
        }
    }

    /// Writes a participant record into a slot: a 4-byte big-endian length,
    /// then the payload, leaving the rest of the slot as it was. A history
    /// longer than the maximum, or a payload that does not fit, is refused with
    /// the slot untouched.
    pub fn pack(src: Self, dst: &mut Vec<u8>) -> (r: Result<(), LedgerError>)
        ensures
            r is Ok <==> src@.valid() && PREFIX_LEN + encode_account(src@).len() <= old(dst)@.len(),
            r is Ok ==> final(dst)@ == write_record(src@, old(dst)@),
            r is Err ==> r == Err::<(), LedgerError>(LedgerError::CapacityExceeded) && final(dst)@
                == old(dst)@,
    {
        if src.history.len() > MAX_HISTORY {
            return Err(LedgerError::CapacityExceeded);
        }
        let buf = encode_user_account(&src);
        let n = buf.len();
        proof {
            lemma_encode_history_len(src.history@);
        }
        if dst.len() < PREFIX_LEN || n > dst.len() - PREFIX_LEN {
            return Err(LedgerError::CapacityExceeded);
        }
        let n32 = n as u32;
        dst[0] = (n32 >> 24) as u8;
        dst[1] = ((n32 >> 16) & 0xff) as u8;
        dst[2] = ((n32 >> 8) & 0xff) as u8;
        dst[3] = (n32 & 0xff) as u8;
        let dst_len = dst.len();
        let ghost head = dst@.subrange(0, 4);
        assert(head =~= be4(n32));
        let mut i: usize = 0;
        while i < n
            invariant
                n == buf@.len(),
                4 + n <= dst@.len(),
                dst_len == dst@.len(),
                dst@.len() == old(dst)@.len(),
                0 <= i <= n,
                dst@.subrange(0, 4) == be4(n32),
                forall|j: int| 0 <= j < i ==> dst@[4 + j] == buf@[j],
                forall|j: int| 4 + i <= j < dst@.len() ==> dst@[j] == old(dst)@[j],
            decreases n - i,
        {
            dst[PREFIX_LEN + i] = buf[i];
            assert(dst@.subrange(0, 4) =~= be4(n32));
            i = i + 1;
        }
        assert(dst@ =~= write_record(src@, old(dst)@));
        Ok(())
    }
}

/// Bytes of one encoded settings entry.
pub const SETTING_LEN: usize = 11;

/// Bytes of an encoded token reference.
pub const TOKEN_LEN: usize = 32;

/// The eight little-endian bytes of `v`.
pub open spec fn le8(v: u64) -> Seq<u8> {
    seq![
        (v & 0xff) as u8,
        ((v >> 8) & 0xff) as u8,
        ((v >> 16) & 0xff) as u8,
        ((v >> 24) & 0xff) as u8,
        ((v >> 32) & 0xff) as u8,
        ((v >> 40) & 0xff) as u8,
        ((v >> 48) & 0xff) as u8,
        (v >> 56) as u8,
    ]
}

/// One settings entry: campaign (2 bytes), level (1 byte), daily reward
/// (8 bytes), integers little-endian.
pub open spec fn encode_setting(e: CreditSetting) -> Seq<u8> {
    le2(e.campaign_id) + seq![e.level] + le8(e.daily_reward)
}

/// The settings entries, one after the other.
pub open spec fn encode_setting_list(s: Seq<CreditSetting>) -> Seq<u8>
    decreases s.len(),
{
    if s.len() == 0 {
        Seq::empty()
    } else {
        encode_setting_list(s.drop_last()) + encode_setting(s.last())
    }
}

/// The settings table as stored: the entry count (4 bytes, little-endian),
/// then the entries.
pub open spec fn encode_settings(s: Seq<CreditSetting>) -> Seq<u8> {
    le4(s.len() as u32) + encode_setting_list(s)
}

proof fn lemma_encode_setting_list_len(s: Seq<CreditSetting>)
    ensures
        encode_setting_list(s).len() == 11 * s.len(),
    decreases s.len(),
{
    if s.len() > 0 {
        lemma_encode_setting_list_len(s.drop_last());
    }
}

proof fn lemma_le8_injective(a: u64, b: u64)
    requires
        le8(a) == le8(b),
    ensures
        a == b,
{
    assert(le8(a)[0] == le8(b)[0]);
    assert(le8(a)[1] == le8(b)[1]);
    assert(le8(a)[2] == le8(b)[2]);
    assert(le8(a)[3] == le8(b)[3]);
    assert(le8(a)[4] == le8(b)[4]);
    assert(le8(a)[5] == le8(b)[5]);
    assert(le8(a)[6] == le8(b)[6]);
    assert(le8(a)[7] == le8(b)[7]);
    assert(a == b) by (bit_vector)
        requires
            (a & 0xff) as u8 == (b & 0xff) as u8,
            ((a >> 8) & 0xff) as u8 == ((b >> 8) & 0xff) as u8,
            ((a >> 16) & 0xff) as u8 == ((b >> 16) & 0xff) as u8,
            ((a >> 24) & 0xff) as u8 == ((b >> 24) & 0xff) as u8,
            ((a >> 32) & 0xff) as u8 == ((b >> 32) & 0xff) as u8,
            ((a >> 40) & 0xff) as u8 == ((b >> 40) & 0xff) as u8,
            ((a >> 48) & 0xff) as u8 == ((b >> 48) & 0xff) as u8,
            (a >> 56) as u8 == (b >> 56) as u8,
    ;
}

proof fn lemma_encode_setting_list_injective(s1: Seq<CreditSetting>, s2: Seq<CreditSetting>)
    requires
        s1.len() == s2.len(),
        encode_setting_list(s1) == encode_setting_list(s2),
    ensures
        s1 == s2,
    decreases s1.len(),
{
    if s1.len() > 0 {
        let (front1, front2) = (s1.drop_last(), s2.drop_last());
        lemma_encode_setting_list_len(front1);
        lemma_encode_setting_list_len(front2);
        let (e1, e2) = (encode_setting_list(s1), encode_setting_list(s2));
        let k = 11 * front1.len() as int;
        assert(e1.subrange(0, k) =~= encode_setting_list(front1));
        assert(e2.subrange(0, k) =~= encode_setting_list(front2));
        lemma_encode_setting_list_injective(front1, front2);
        let (x, y) = (s1.last(), s2.last());
        assert(e1.subrange(k, k + 11) =~= encode_setting(x));
        assert(e2.subrange(k, k + 11) =~= encode_setting(y));
        assert(le2(x.campaign_id) =~= encode_setting(x).subrange(0, 2));
        assert(le2(y.campaign_id) =~= encode_setting(y).subrange(0, 2));
        lemma_le2_injective(x.campaign_id, y.campaign_id);
        assert(encode_setting(x)[2] == x.level);
        assert(encode_setting(y)[2] == y.level);
        assert(le8(x.daily_reward) =~= encode_setting(x).subrange(3, 11));
        assert(le8(y.daily_reward) =~= encode_setting(y).subrange(3, 11));
        lemma_le8_injective(x.daily_reward, y.daily_reward);
        assert(s1 =~= front1.push(x));
        assert(s2 =~= front2.push(y));
    }
}

/// Distinct settings tables have distinct stored forms.
pub proof fn lemma_settings_encoding_injective(s1: Seq<CreditSetting>, s2: Seq<CreditSetting>)
    requires
        s1.len() <= u32::MAX,
        s2.len() <= u32::MAX,
        encode_settings(s1) == encode_settings(s2),
    ensures
        s1 == s2,
{
    let (e1, e2) = (encode_settings(s1), encode_settings(s2));
    assert(e1.subrange(0, 4) =~= le4(s1.len() as u32));
    assert(e2.subrange(0, 4) =~= le4(s2.len() as u32));
    lemma_le4_injective(s1.len() as u32, s2.len() as u32);
    assert(e1.subrange(4, e1.len() as int) =~= encode_setting_list(s1));
    assert(e2.subrange(4, e2.len() as int) =~= encode_setting_list(s2));
    lemma_encode_setting_list_injective(s1, s2);
}

/// Whether `data` is the stored form of settings table `s`.
pub open spec fn settings_decode_to(data: Seq<u8>, s: Seq<CreditSetting>) -> bool {
    s.len() <= u32::MAX && encode_settings(s) == data
}

/// The settings table whose stored form is `data`, if there is one.
pub open spec fn decode_settings(data: Seq<u8>) -> Option<Seq<CreditSetting>> {
    if exists|s: Seq<CreditSetting>| settings_decode_to(data, s) {
        Some(choose|s: Seq<CreditSetting>| settings_decode_to(data, s))
    } else {
        None
    }
}

fn push_le8(out: &mut Vec<u8>, v: u64)
    ensures
        final(out)@ == old(out)@ + le8(v),
{
    out.push((v & 0xff) as u8);
    out.push(((v >> 8) & 0xff) as u8);
    out.push(((v >> 16) & 0xff) as u8);
    out.push(((v >> 24) & 0xff) as u8);
    out.push(((v >> 32) & 0xff) as u8);
    out.push(((v >> 40) & 0xff) as u8);
    out.push(((v >> 48) & 0xff) as u8);
    out.push((v >> 56) as u8);
    assert(final(out)@ =~= old(out)@ + le8(v));
}

fn read_le8(data: &[u8], off: usize) -> (r: u64)
    requires
        off + 8 <= data@.len(),
    ensures
        le8(r) == data@.subrange(off as int, off + 8),
{
    let total = data.len();
    let lo = read_le4(data, off);
    let hi = read_le4(data, off + 4);
    let r: u64 = (lo as u64) | ((hi as u64) << 32);
    assert((r & 0xff) as u8 == (lo & 0xff) as u8 && ((r >> 8) & 0xff) as u8 == ((lo >> 8) & 0xff)
        as u8 && ((r >> 16) & 0xff) as u8 == ((lo >> 16) & 0xff) as u8 && ((r >> 24) & 0xff) as u8
        == (lo >> 24) as u8 && ((r >> 32) & 0xff) as u8 == (hi & 0xff) as u8 && ((r >> 40) & 0xff)
        as u8 == ((hi >> 8) & 0xff) as u8 && ((r >> 48) & 0xff) as u8 == ((hi >> 16) & 0xff) as u8
        && (r >> 56) as u8 == (hi >> 24) as u8) by (bit_vector)
        requires
            r == (lo as u64) | ((hi as u64) << 32),
    ;
    assert(le8(r) =~= data@.subrange(off as int, off + 8));
    r
}

/// The stored form of the settings table; its slot is sized to it exactly.
pub fn encode_credit_settings(settings: &CreditSettings) -> (r: Vec<u8>)
    requires
        settings@.len() <= u32::MAX,
    ensures
        r@ == encode_settings(settings@),
{
    let mut out: Vec<u8> = Vec::new();
    push_le4(&mut out, settings.settings.len() as u32);
    let ghost header = out@;
    let n = settings.settings.len();
    let mut i: usize = 0;
    while i < n
        invariant
            n == settings@.len(),
            0 <= i <= n,
            out@ == header + encode_setting_list(settings@.subrange(0, i as int)),
        decreases n - i,
    {
        let e = settings.settings[i];
        push_le2(&mut out, e.campaign_id);
        out.push(e.level);
        push_le8(&mut out, e.daily_reward);
        let ghost done = settings@.subrange(0, i + 1);
        assert(done.drop_last() =~= settings@.subrange(0, i as int));
        assert(out@ =~= header + encode_setting_list(done));
        i = i + 1;
    }
    assert(settings@.subrange(0, n as int) =~= settings@);
    out
}

/// Reads a stored settings table that fills the `len` bytes of `data` at
/// `start` exactly.
pub fn decode_settings_at(data: &[u8], start: usize, len: usize) -> (r: Result<
    CreditSettings,
    LedgerError,
>)
    requires
        start + len <= data@.len(),
    ensures
        match r {
            Ok(s) => decode_settings(data@.subrange(start as int, start + len)) == Some(s@),
            Err(e) => e == LedgerError::CorruptRecord && decode_settings(
                data@.subrange(start as int, start + len),
            ) is None,
        },
{
    let ghost p = data@.subrange(start as int, start + len);
    let total = data.len();
    if len < PREFIX_LEN {
        assert forall|s: Seq<CreditSetting>| !#[trigger] settings_decode_to(p, s) by {
            if settings_decode_to(p, s) {
                assert(encode_settings(s).len() >= 4);
            }
        }
        return Err(LedgerError::CorruptRecord);
    }
    let count = read_le4(data, start);
    assert(p.subrange(0, 4) =~= data@.subrange(start as int, start + 4));
    if (len - PREFIX_LEN) as u64 != count as u64 * SETTING_LEN as u64 {
        assert forall|s: Seq<CreditSetting>| !#[trigger] settings_decode_to(p, s) by {
            if settings_decode_to(p, s) {
                lemma_encode_setting_list_len(s);
                assert(encode_settings(s).len() == 4 + 11 * s.len());
                assert(encode_settings(s).subrange(0, 4) =~= le4(s.len() as u32));
                assert(p.subrange(0, 4) == le4(count));
                lemma_le4_injective(count, s.len() as u32);
                assert(count as int == s.len());
                assert(len == 4 + 11 * count);
            }
        }
        return Err(LedgerError::CorruptRecord);
    }
    let mut list: Vec<CreditSetting> = Vec::new();
    let mut k: u32 = 0;
    while k < count
        invariant
            start + len <= data@.len(),
            total == data@.len(),
            p == data@.subrange(start as int, start + len),
            len == PREFIX_LEN + SETTING_LEN * count,
            0 <= k <= count,
            list@.len() == k,
            encode_setting_list(list@) == p.subrange(4, 4 + 11 * k),
        decreases count - k,
    {
        let off = start + PREFIX_LEN + SETTING_LEN * (k as usize);
        let c = read_le2(data, off);
        let level = data[off + 2];
        let reward = read_le8(data, off + 3);
        let e = CreditSetting { campaign_id: c, level, daily_reward: reward };
        let ghost before = list@;
        list.push(e);
        assert(list@.drop_last() =~= before);
        assert(encode_setting(e) =~= data@.subrange(off as int, off + 11));
        assert(encode_setting_list(list@) =~= p.subrange(4, 4 + 11 * (k + 1)));
        k = k + 1;
    }
    let s = CreditSettings { settings: list };
    assert(le4(s@.len() as u32) == le4(count));
    assert(encode_settings(s@) =~= p);
    proof {
        let c = choose|c: Seq<CreditSetting>| settings_decode_to(p, c);
        assert(settings_decode_to(p, s@));
        lemma_settings_encoding_injective(s@, c);
    }
    Ok(s)
}

/// Reads a stored settings table, which must fill `data` exactly.
pub fn decode_credit_settings(data: &[u8]) -> (r: Result<CreditSettings, LedgerError>)
    ensures
        match r {
            Ok(s) => decode_settings(data@) == Some(s@),
            Err(e) => e == LedgerError::CorruptRecord && decode_settings(data@) is None,
        },
{
    assert(data@.subrange(0, data@.len() as int) =~= data@);
    decode_settings_at(data, 0, data.len())
}

/// The 32 bytes of `data` at `off`, as an address.
pub fn address_at(data: &[u8], off: usize) -> (r: Address)
    requires
        off + 32 <= data@.len(),
    ensures
        r@ == data@.subrange(off as int, off + 32),
{
    let total = data.len();
    let mut bytes = [0u8; 32];
    let mut i: usize = 0;
    while i < 32
        invariant
            off + 32 <= data@.len(),
            total == data@.len(),
            0 <= i <= 32,
            forall|j: int| 0 <= j < i ==> bytes@[j] == data@[off + j],
        decreases 32 - i,
    {
        bytes[i] = data[off + i];
        i = i + 1;
    }
    let r = Address { bytes };
    assert(r@ =~= data@.subrange(off as int, off + 32));
    r
}

/// The stored form of the token reference: the 32 address bytes.
pub fn encode_token_account(token: &TokenAccount) -> (r: Vec<u8>)
    ensures
        r@ == token.token@,
{
    let mut out: Vec<u8> = Vec::new();
    let mut i: usize = 0;
    while i < TOKEN_LEN
        invariant
            0 <= i <= TOKEN_LEN,
            out@ == token.token@.subrange(0, i as int),
        decreases TOKEN_LEN - i,
    {
        out.push(token.token.bytes[i]);
        assert(out@ =~= token.token@.subrange(0, i + 1));
        i = i + 1;
    }
    assert(token.token@.subrange(0, 32) =~= token.token@);
    out
}

/// Reads a stored token reference, which must be exactly 32 bytes.
pub fn decode_token_account(data: &[u8]) -> (r: Result<TokenAccount, LedgerError>)
    ensures
        match r {
            Ok(t) => t.token@ == data@,
            Err(e) => e == LedgerError::CorruptRecord && data@.len() != TOKEN_LEN,
        },
{
    if data.len() != TOKEN_LEN {
        return Err(LedgerError::CorruptRecord);
    }
    let token = address_at(data, 0);
    assert(data@.subrange(0, 32) =~= data@);
    Ok(TokenAccount { token })
}

} // verus!
