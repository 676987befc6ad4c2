//! Key namespaces of the shared key-value store. Every subsystem owns one
//! prefix byte; a key is its prefix followed by big-endian identifiers.

use vstd::prelude::*;

verus! {

pub const KV_ACME: u8 = 0;
pub const KV_OAUTH: u8 = 1;
pub const KV_RATE_LIMIT_RCPT: u8 = 2;
pub const KV_RATE_LIMIT_SCAN: u8 = 3;
pub const KV_RATE_LIMIT_LOITER: u8 = 4;
pub const KV_RATE_LIMIT_AUTH: u8 = 5;
pub const KV_RATE_LIMIT_HASH: u8 = 6;
pub const KV_RATE_LIMIT_CONTACT: u8 = 7;
pub const KV_RATE_LIMIT_JMAP: u8 = 8;
pub const KV_RATE_LIMIT_JMAP_AUTH: u8 = 9;
pub const KV_RATE_LIMIT_HTTP_ANONYM: u8 = 10;
pub const KV_RATE_LIMIT_IMAP: u8 = 11;
pub const KV_REPUTATION_IP: u8 = 12;
pub const KV_REPUTATION_FROM: u8 = 13;
pub const KV_REPUTATION_DOMAIN: u8 = 14;
pub const KV_REPUTATION_ASN: u8 = 15;
pub const KV_GREYLIST: u8 = 16;
pub const KV_BAYES_MODEL_GLOBAL: u8 = 17;
pub const KV_BAYES_MODEL_USER: u8 = 18;
pub const KV_TRUSTED_REPLY: u8 = 19;
pub const KV_LOCK_PURGE_ACCOUNT: u8 = 20;
pub const KV_LOCK_QUEUE_MESSAGE: u8 = 21;
pub const KV_LOCK_QUEUE_REPORT: u8 = 22;
pub const KV_LOCK_EMAIL_TASK: u8 = 23;
pub const KV_LOCK_HOUSEKEEPER: u8 = 24;
pub const KV_QUEUE_DOMAIN_SLOT: u8 = 25;

/// The four bytes of `v`, most significant first.
pub open spec fn be_bytes_u32(v: u32) -> Seq<u8> {
    seq![
        (v / 0x100_0000) as u8,
        (v / 0x1_0000 % 0x100) as u8,
        (v / 0x100 % 0x100) as u8,
        (v % 0x100) as u8,
    ]
}

/// The eight bytes of `v`, most significant first.
pub open spec fn be_bytes_u64(v: u64) -> Seq<u8> {
    be_bytes_u32((v / 0x1_0000_0000) as u32) + be_bytes_u32((v % 0x1_0000_0000) as u32)
}

/// Appends the big-endian bytes of `v`.
pub fn push_be_u32(out: &mut Vec<u8>, v: u32)
    ensures
        final(out)@ == old(out)@ + be_bytes_u32(v),
{
    out.push((v / 0x100_0000) as u8);
    out.push((v / 0x1_0000 % 0x100) as u8);
    out.push((v / 0x100 % 0x100) as u8);
    out.push((v % 0x100) as u8);
    assert(out@ =~= old(out)@ + be_bytes_u32(v));
}

/// Appends the big-endian bytes of `v`.
pub fn push_be_u64(out: &mut Vec<u8>, v: u64)
    ensures
        final(out)@ == old(out)@ + be_bytes_u64(v),
{
    push_be_u32(out, (v / 0x1_0000_0000) as u32);
    push_be_u32(out, (v % 0x1_0000_0000) as u32);
    assert(out@ =~= old(out)@ + be_bytes_u64(v));
}

/// Different numbers have different big-endian bytes.
pub proof fn lemma_be_bytes_u32_injective(a: u32, b: u32)
    requires
        be_bytes_u32(a) == be_bytes_u32(b),
    ensures
        a == b,
{
    let x = be_bytes_u32(a);
    let y = be_bytes_u32(b);
    assert(x[0] == y[0] && x[1] == y[1] && x[2] == y[2] && x[3] == y[3]);
    assert(a == (a / 0x100_0000) * 0x100_0000 + (a / 0x1_0000 % 0x100) * 0x1_0000 + (a / 0x100
        % 0x100) * 0x100 + a % 0x100);
    assert(b == (b / 0x100_0000) * 0x100_0000 + (b / 0x1_0000 % 0x100) * 0x1_0000 + (b / 0x100
        % 0x100) * 0x100 + b % 0x100);
}

/// Different numbers have different big-endian bytes.
pub proof fn lemma_be_bytes_u64_injective(a: u64, b: u64)
    requires
        be_bytes_u64(a) == be_bytes_u64(b),
    ensures
        a == b,
{
    let ah = (a / 0x1_0000_0000) as u32;
    let al = (a % 0x1_0000_0000) as u32;
    let bh = (b / 0x1_0000_0000) as u32;
    let bl = (b % 0x1_0000_0000) as u32;
    let x = be_bytes_u64(a);
    let y = be_bytes_u64(b);
    assert(be_bytes_u32(ah) =~= x.subrange(0, 4));
    assert(be_bytes_u32(bh) =~= y.subrange(0, 4));
    assert(be_bytes_u32(al) =~= x.subrange(4, 8));
    assert(be_bytes_u32(bl) =~= y.subrange(4, 8));
    lemma_be_bytes_u32_injective(ah, bh);
    lemma_be_bytes_u32_injective(al, bl);
    assert(a == ah * 0x1_0000_0000 + al);
    assert(b == bh * 0x1_0000_0000 + bl);
}

} // verus!
