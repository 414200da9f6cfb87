//! The name-service registry: services register an endpoint under a name,
//! any task looks a name up. Registration is gated by a fixed allowlist of
//! (kernel-attested task id, name) pairs; lookups are open to everyone. A
//! name registered again replaces its earlier entry.
use vstd::prelude::*;
use crate::bytes::le32_at;
use crate::ipc::{Message, RecvResult, msg, name8, NS_OP_LOOKUP, NS_OP_REGISTER};

verus! {

pub const MAX_ENTRIES: usize = 8;

/// One registered name and the slot (in the name service's own CSpace) of
/// the capability registered under it.
#[derive(Clone, Copy, Debug, PartialEq, Eq)]
pub struct Entry {
    pub name: [u8; 8],
    pub slot: u32,
}

/// Whether task `sender` may register `name`: the console server (task 2)
/// as `console`, the storage driver (3) as `storage`, the filesystem (4) as
/// `fs`, and the NIC driver (6) as `net`.
pub open spec fn allowed_spec(sender: u32, name: Seq<u8>) -> bool {
    ||| sender == 2 && name == seq![0x63u8, 0x6F, 0x6E, 0x73, 0x6F, 0x6C, 0x65, 0]
    ||| sender == 3 && name == seq![0x73u8, 0x74, 0x6F, 0x72, 0x61, 0x67, 0x65, 0]
    ||| sender == 4 && name == seq![0x66u8, 0x73, 0, 0, 0, 0, 0, 0]
    ||| sender == 6 && name == seq![0x6Eu8, 0x65, 0x74, 0, 0, 0, 0, 0]
}

/// Index of the first entry at or after `i` registered under `name`.
pub open spec fn find_name(es: Seq<Option<Entry>>, name: Seq<u8>, i: int) -> Option<int>
    decreases es.len() - i,
{
    if i < 0 || i >= es.len() {
        None
    } else if es[i] is Some && es[i]->0.name@ == name {
        Some(i)
    } else {
        find_name(es, name, i + 1)
    }
}

/// Index of the first empty entry at or after `i`.
pub open spec fn find_free(es: Seq<Option<Entry>>, i: int) -> Option<int>
    decreases es.len() - i,
{
    if i < 0 || i >= es.len() {
        None
    } else if es[i] is None {
        Some(i)
    } else {
        find_free(es, i + 1)
    }
}

/// The registry after registering `slot` under `name`: the name's existing
/// entry is reused, else the first empty one; a full registry is unchanged.
pub open spec fn register_spec(es: Seq<Option<Entry>>, name: [u8; 8], slot: u32) -> Seq<Option<Entry>> {
    match find_name(es, name@, 0) {
        Some(i) => es.update(i, Some(Entry { name, slot })),
        None => match find_free(es, 0) {
            Some(i) => es.update(i, Some(Entry { name, slot })),
            None => es,
        },
    }
}

/// The slot registered under `name`, if any.
pub open spec fn lookup_spec(es: Seq<Option<Entry>>, name: Seq<u8>) -> Option<u32> {
    match find_name(es, name, 0) {
        Some(i) => Some(es[i]->0.slot),
        None => None,
    }
}

/// The 8 name bytes carried little-endian in two message words.
pub open spec fn words_name(w0: u32, w1: u32) -> Seq<u8> {
    seq![
        (w0 % 256) as u8, ((w0 / 256) % 256) as u8, ((w0 / 0x10000) % 256) as u8, (w0 / 0x1000000) as u8,
        (w1 % 256) as u8, ((w1 / 256) % 256) as u8, ((w1 / 0x10000) % 256) as u8, (w1 / 0x1000000) as u8,
    ]
}

/// Unpacks the 8-byte name carried in words `w0`, `w1`.
pub fn packed_name(w0: u32, w1: u32) -> (r: [u8; 8])
    ensures
        r@ == words_name(w0, w1),
{
    let r = [
        (w0 % 256) as u8,
        ((w0 / 256) % 256) as u8,
        ((w0 / 0x10000) % 256) as u8,
        (w0 / 0x1000000) as u8,
        (w1 % 256) as u8,
        ((w1 / 256) % 256) as u8,
        ((w1 / 0x10000) % 256) as u8,
        (w1 / 0x1000000) as u8,
    ];
    assert(r@ =~= words_name(w0, w1));
    r
}

fn name_is(name: &[u8; 8], a: u8, b: u8, c: u8, d: u8, e: u8, f: u8, g: u8, h: u8) -> (r: bool)
    ensures
        r == (name@ == seq![a, b, c, d, e, f, g, h]),
{
    let r = name[0] == a && name[1] == b && name[2] == c && name[3] == d && name[4] == e && name[5] == f && name[6] == g
        && name[7] == h;
    assert(r ==> name@ =~= seq![a, b, c, d, e, f, g, h]);
    r
}

/// Whether task `sender` may register `name`.
pub fn allowed(sender: u32, name: &[u8; 8]) -> (r: bool)
    ensures
        r == allowed_spec(sender, name@),
{
    (sender == 2 && name_is(name, 0x63, 0x6F, 0x6E, 0x73, 0x6F, 0x6C, 0x65, 0)) || (sender == 3 && name_is(
        name,
        0x73,
        0x74,
        0x6F,
        0x72,
        0x61,
        0x67,
        0x65,
        0,
    )) || (sender == 4 && name_is(name, 0x66, 0x73, 0, 0, 0, 0, 0, 0)) || (sender == 6 && name_is(
        name,
        0x6E,
        0x65,
        0x74,
        0,
        0,
        0,
        0,
        0,
    ))
}

fn names_equal(a: &[u8; 8], b: &[u8; 8]) -> (r: bool)
    ensures
        r == (a@ == b@),
{
    let r = a[0] == b[0] && a[1] == b[1] && a[2] == b[2] && a[3] == b[3] && a[4] == b[4] && a[5] == b[5] && a[6] == b[6]
        && a[7] == b[7];
    assert(r ==> a@ =~= b@);
    r
}

/// The registry.
pub struct Registry {
    entries: [Option<Entry>; MAX_ENTRIES],
}

impl Registry {
    pub closed spec fn view(&self) -> Seq<Option<Entry>> {
        self.entries@
    }

    /// An empty registry.
    pub fn new() -> (r: Self)
        ensures
            r.view().len() == MAX_ENTRIES,
            forall|i: int| 0 <= i < MAX_ENTRIES ==> r.view()[i] is None,
    {
        Registry { entries: [None, None, None, None, None, None, None, None] }
    }

    fn find_name_from(&self, name: &[u8; 8]) -> (r: Option<usize>)
        ensures
            r matches Some(i) ==> i < MAX_ENTRIES,
            r == (match find_name(self.view(), name@, 0) {
                Some(i) => Some(i as usize),
                None => None::<usize>,
            }),
    {
        proof {
            lemma_find_name_hit(self.view(), name@, 0);
        }
        let mut i: usize = 0;
        while i < MAX_ENTRIES
            invariant
                i <= MAX_ENTRIES,
                self.entries@.len() == MAX_ENTRIES,
                find_name(self.view(), name@, 0) == find_name(self.view(), name@, i as int),
            decreases MAX_ENTRIES - i,
        {
            match self.entries[i] {
                Some(e) => {
                    if names_equal(&e.name, name) {
                        return Some(i);
                    }
                },
                None => {},
            }
            i = i + 1;
        }
        None
    }

    fn find_free_from(&self) -> (r: Option<usize>)
        ensures
            r matches Some(i) ==> i < MAX_ENTRIES,
            r == (match find_free(self.view(), 0) {
                Some(i) => Some(i as usize),
                None => None::<usize>,
            }),
    {
        proof {
            lemma_find_free_hit(self.view(), 0);
        }
        let mut i: usize = 0;
        while i < MAX_ENTRIES
            invariant
                i <= MAX_ENTRIES,
                self.entries@.len() == MAX_ENTRIES,
                find_free(self.view(), 0) == find_free(self.view(), i as int),
            decreases MAX_ENTRIES - i,
        {
            if self.entries[i].is_none() {
                return Some(i);
            }
            i = i + 1;
        }
        None
    }

    /// Handles one request to the name service. A registration from a task
    /// the allowlist permits, carrying a capability, records it under the
    /// name (no reply). A lookup carrying a reply endpoint is answered on it:
    /// `1` with the registered capability transferred, or `0`.
    pub fn handle(&mut self, r: RecvResult) -> (reply: Option<Message>)
        ensures
            ({
                let name = words_name(r.w1, r.w2);
                let arr = choose|a: [u8; 8]| a@ == name;
                if r.w0 == NS_OP_REGISTER {
                    &&& reply is None
                    &&& final(self).view() == (if allowed_spec(r.sender, name) && r.transferred_slot != 0 {
                        register_spec(old(self).view(), arr, r.transferred_slot)
                    } else {
                        old(self).view()
                    })
                } else if r.w0 == NS_OP_LOOKUP && r.transferred_slot != 0 {
                    &&& final(self).view() == old(self).view()
                    &&& reply == Some(match lookup_spec(old(self).view(), name) {
                        Some(slot) => msg(r.transferred_slot, 1, 0, 0, slot),
                        None => msg(r.transferred_slot, 0, 0, 0, 0),
                    })
                } else {
                    reply is None && final(self).view() == old(self).view()
                }
            }),
    {
        let name = packed_name(r.w1, r.w2);
        proof {
            let arr = choose|a: [u8; 8]| a@ == words_name(r.w1, r.w2);
            assert(arr@ == name@);
            assert(arr =~= name);
            lemma_find_name_hit(self.view(), name@, 0);
            lemma_find_free_hit(self.view(), 0);
        }
        if r.w0 == NS_OP_REGISTER {
            if allowed(r.sender, &name) && r.transferred_slot != 0 {
                let idx = match self.find_name_from(&name) {
                    Some(i) => Some(i),
                    None => self.find_free_from(),
                };
                match idx {
                    Some(i) => {
                        self.entries[i] = Some(Entry { name, slot: r.transferred_slot });
                    },
                    None => {},
                }
            }
            None
        } else if r.w0 == NS_OP_LOOKUP && r.transferred_slot != 0 {
            let reply_slot = r.transferred_slot;
            match self.find_name_from(&name) {
                Some(i) => {
                    let e = self.entries[i].unwrap();
                    Some(Message { dest_slot: reply_slot, w0: 1, w1: 0, w2: 0, transfer_slot: e.slot })
                },
                None => Some(Message { dest_slot: reply_slot, w0: 0, w1: 0, w2: 0, transfer_slot: 0 }),
            }
        } else {
            None
        }
    }
}

/// `find_name` finds an index holding the name, at or after `i`.
proof fn lemma_find_name_hit(es: Seq<Option<Entry>>, name: Seq<u8>, i: int)
    ensures
        find_name(es, name, i) matches Some(j) ==> i <= j < es.len() && es[j] is Some && es[j]->0.name@ == name,
    decreases es.len() - i,
{
    if 0 <= i < es.len() && !(es[i] is Some && es[i]->0.name@ == name) {
        lemma_find_name_hit(es, name, i + 1);
    }
}

/// `find_free` finds an empty index at or after `i`.
proof fn lemma_find_free_hit(es: Seq<Option<Entry>>, i: int)
    ensures
        find_free(es, i) matches Some(j) ==> i <= j < es.len() && es[j] is None,
    decreases es.len() - i,
{
    if 0 <= i < es.len() && !(es[i] is None) {
        lemma_find_free_hit(es, i + 1);
    }
}

/// `find_name` depends only on entries at or after `i`; an update at a
/// position where the name is absent before it finds the updated entry.
proof fn lemma_find_name_update(es: Seq<Option<Entry>>, name: [u8; 8], slot: u32, i: int, k: int)
    requires
        0 <= i <= k < es.len(),
        forall|j: int| i <= j < k ==> !(es[j] is Some && es[j]->0.name@ == name@),
    ensures
        find_name(es.update(k, Some(Entry { name, slot })), name@, i) == Some(k),
    decreases k - i,
{
    if i < k {
        lemma_find_name_update(es, name, slot, i + 1, k);
    }
}

/// No index before the one `find_name` reports (or, if none, at all from
/// `i` on) holds the name.
proof fn lemma_find_name_none_before(es: Seq<Option<Entry>>, name: Seq<u8>, i: int)
    requires
        0 <= i,
    ensures
        forall|j: int|
            i <= j < es.len() && (find_name(es, name, i) matches Some(m) ==> j < m) ==> !(es[j] is Some
                && es[j]->0.name@ == name),
    decreases es.len() - i,
{
    if i < es.len() && !(es[i] is Some && es[i]->0.name@ == name) {
        lemma_find_name_none_before(es, name, i + 1);
    }
}

/// What a lookup answers after a registration: once an allowed task has
/// registered a capability under a name, a lookup of that name returns it,
/// unless the registry was full with no entry for that name to reuse.
pub proof fn lemma_register_then_lookup(es: Seq<Option<Entry>>, name: [u8; 8], slot: u32)
    requires
        find_name(es, name@, 0) is Some || find_free(es, 0) is Some,
    ensures
        lookup_spec(register_spec(es, name, slot), name@) == Some(slot),
{
    lemma_find_name_hit(es, name@, 0);
    lemma_find_free_hit(es, 0);
    lemma_find_name_none_before(es, name@, 0);
    let k = match find_name(es, name@, 0) {
        Some(i) => i,
        None => find_free(es, 0)->0,
    };
    lemma_find_name_update(es, name, slot, 0, k);
}

/// Registering one name leaves every other name's lookup unchanged.
pub proof fn lemma_register_keeps_other_names(es: Seq<Option<Entry>>, name: [u8; 8], slot: u32, other: Seq<u8>)
    requires
        other != name@,
    ensures
        lookup_spec(register_spec(es, name, slot), other) == lookup_spec(es, other),
{
    lemma_find_name_hit(es, name@, 0);
    lemma_find_free_hit(es, 0);
    let es2 = register_spec(es, name, slot);
    assert(es2.len() == es.len());
    assert forall|j: int| 0 <= j < es.len() implies (es2[j] is Some && es2[j]->0.name@ == other) == (es[j] is Some
        && es[j]->0.name@ == other) by {}
    lemma_find_name_same(es, es2, other, 0);
    lemma_find_name_hit(es2, other, 0);
}

/// `find_name` only looks at which entries hold the name.
proof fn lemma_find_name_same(a: Seq<Option<Entry>>, b: Seq<Option<Entry>>, name: Seq<u8>, i: int)
    requires
        a.len() == b.len(),
        forall|j: int| 0 <= j < a.len() ==> (a[j] is Some && a[j]->0.name@ == name) == (b[j] is Some && b[j]->0.name@ == name),
    ensures
        find_name(a, name, i) == find_name(b, name, i),
    decreases a.len() - i,
{
    if 0 <= i < a.len() {
        lemma_find_name_same(a, b, name, i + 1);
    }
}

/// Four bytes packed little-endian into a word unpack to the same bytes.
pub proof fn lemma_le32_unpack(a: u8, b: u8, c: u8, d: u8)
    ensures
        ({
            let w = (a as nat) + (b as nat) * 0x100 + (c as nat) * 0x10000 + (d as nat) * 0x1000000;
            &&& w % 256 == a
            &&& (w / 256) % 256 == b
            &&& (w / 0x10000) % 256 == c
            &&& w / 0x1000000 == d
        }),
{
    let w = (a as nat) + (b as nat) * 0x100 + (c as nat) * 0x10000 + (d as nat) * 0x1000000;
    assert(w % 256 == a && (w / 256) % 256 == b && (w / 0x10000) % 256 == c && w / 0x1000000 == d) by (nonlinear_arith)
        requires
            a < 256,
            b < 256,
            c < 256,
            d < 256,
            w == (a as nat) + (b as nat) * 0x100 + (c as nat) * 0x10000 + (d as nat) * 0x1000000,
    ;
}

/// Both ends of the name protocol agree: the words a client packs a name
/// into (`ipc::pack_name`) unpack here (`packed_name`) to the name's first
/// eight bytes, zero-padded.
pub proof fn lemma_pack_unpack(name: Seq<u8>)
    ensures
        words_name(le32_at(name8(name), 0) as u32, le32_at(name8(name), 4) as u32) == name8(name),
{
    let n = name8(name);
    lemma_le32_unpack(n[0], n[1], n[2], n[3]);
    lemma_le32_unpack(n[4], n[5], n[6], n[7]);
    assert(words_name(le32_at(n, 0) as u32, le32_at(n, 4) as u32) =~= n);
}

} // verus!
