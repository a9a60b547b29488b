use vstd::prelude::*;

use crate::chunk::fourcc;
use crate::chunk::fourcc_at;
use crate::chunk::read_fourcc;
use crate::chunk::FourCC;
use crate::endian::word32;
use crate::endian::Endian;
use crate::endian::Endianness;
use crate::endian::Reader;
use crate::error::Error;

verus! {

/// The key table: the ownership edges of the container graph.
#[derive(Debug)]
pub struct KeyTable {
    pub keys: Vec<Key>,
}

/// One edge: resource `owner` owns resource `owned`, which has kind `chunk`.
#[derive(Clone, Copy, PartialEq, Eq, Structural, Debug)]
pub struct Key {
    pub owned: u32,
    pub owner: u32,
    pub chunk: FourCC,
}

/// The `KEY*` chunk tag.
pub open spec fn tag_key() -> FourCC {
    fourcc(0x4b, 0x45, 0x59, 0x2a)
}

/// The first `owned` id in table order whose row matches `(owner, tag)`,
/// or none.
pub open spec fn spec_lookup(keys: Seq<Key>, owner: u32, tag: FourCC) -> Option<u32>
    decreases keys.len(),
{
    if keys.len() == 0 {
        None
    } else if keys[0].owner == owner && keys[0].chunk == tag {
        Some(keys[0].owned)
    } else {
        spec_lookup(keys.skip(1), owner, tag)
    }
}

/// A found lookup result always comes from some matching row of the table.
pub proof fn lemma_lookup_found(keys: Seq<Key>, owner: u32, tag: FourCC)
    requires
        spec_lookup(keys, owner, tag) is Some,
    ensures
        exists|i: int|
            0 <= i < keys.len() && keys[i].owner == owner && keys[i].chunk == tag && keys[i].owned
                == spec_lookup(keys, owner, tag)->Some_0,
    decreases keys.len(),
{
    if keys.len() == 0 {
    } else if keys[0].owner == owner && keys[0].chunk == tag {
        assert(keys[0].owner == owner && keys[0].chunk == tag && keys[0].owned == spec_lookup(
            keys,
            owner,
            tag,
        )->Some_0);
    } else {
        lemma_lookup_found(keys.skip(1), owner, tag);
        let j = choose|j: int|
            0 <= j < keys.skip(1).len() && keys.skip(1)[j].owner == owner && keys.skip(
                1,
            )[j].chunk == tag && keys.skip(1)[j].owned == spec_lookup(
                keys.skip(1),
                owner,
                tag,
            )->Some_0;
        assert(keys[j + 1].owner == owner && keys[j + 1].chunk == tag && keys[j + 1].owned
            == spec_lookup(keys, owner, tag)->Some_0);
    }
}

impl KeyTable {
    pub fn keys(&self) -> (k: &Vec<Key>)
        ensures
            k == &self.keys,
    {
        &self.keys
    }

    /// Resolve `(owner, tag)` to the first matching owned resource id.
    pub fn lookup(&self, owner: u32, tag: FourCC) -> (res: Option<u32>)
        ensures
            res == spec_lookup(self.keys@, owner, tag),
    {
        let n = self.keys.len();
        let mut i: usize = 0;
        proof {
            assert(self.keys@.skip(0) =~= self.keys@);
        }
        while i < n
            invariant
                i <= n,
                n == self.keys@.len(),
                spec_lookup(self.keys@, owner, tag) == spec_lookup(self.keys@.skip(i as int), owner, tag),
            decreases n - i,
        {
            let k = self.keys[i];
            if k.owner == owner && k.chunk == tag {
                proof {
                    assert(self.keys@.skip(i as int)[0] == k);
                }
                return Some(k.owned);
            }
            proof {
                assert(self.keys@.skip(i as int).skip(1) =~= self.keys@.skip(i as int + 1));
                assert(self.keys@.skip(i as int)[0] == k);
            }
            i = i + 1;
        }
        proof {
            assert(self.keys@.skip(n as int).len() == 0);
        }
        None
    }
}

/// The key table laid out at `pos`: tag, size, two 16-bit fillers, the
/// capacity count, the used count, then exactly `used` rows of
/// `(owned, owner, tag)`, 12 bytes each.
pub open spec fn spec_key_at(s: Seq<u8>, big: bool, pos: int) -> Key {
    Key {
        owned: word32(big, s.subrange(pos, pos + 4)),
        owner: word32(big, s.subrange(pos + 4, pos + 8)),
        chunk: fourcc_at(s, big, pos + 8),
    }
}

/// The parse of a `KEY*` chunk at `pos`.
pub open spec fn spec_parse_key(s: Seq<u8>, big: bool, pos: int) -> Result<(Seq<Key>, int), Error> {
    if pos + 4 > s.len() {
        Err(Error::Io)
    } else {
        let tag = fourcc_at(s, big, pos);
        if tag != tag_key() {
            Err(Error::MalformedChunk(tag_key(), tag))
        } else if pos + 20 > s.len() {
            Err(Error::Io)
        } else {
            let used = word32(big, s.subrange(pos + 16, pos + 20)) as int;
            if pos + 20 + 12 * used > s.len() {
                Err(Error::Io)
            } else {
                Ok(
                    (
                        Seq::new(used as nat, |i: int| spec_key_at(s, big, pos + 20 + 12 * i)),
                        pos + 20 + 12 * used,
                    ),
                )
            }
        }
    }
}

/// Decode a `KEY*` chunk at the cursor.
#[verifier::loop_isolation(false)]
pub fn read_key<E: Endianness>(r: &mut Reader) -> (res: Result<KeyTable, Error>)
    ensures
        final(r).stream() == old(r).stream(),
        match res {
            Ok(t) => spec_parse_key(old(r).stream(), E::spec_big(), old(r).posn()) == Ok::<
                _,
                Error,
            >((t.keys@, final(r).posn())),
            Err(e) => spec_parse_key(old(r).stream(), E::spec_big(), old(r).posn()) == Err::<
                (Seq<Key>, int),
                _,
            >(e),
        },
{
    let ghost s = r.stream();
    let ghost big = E::spec_big();
    let ghost pos0 = r.posn();
    let tag = read_fourcc::<E>(r)?;
    let expected = FourCC::new(0x4b, 0x45, 0x59, 0x2a);
    if tag != expected {
        return Err(Error::MalformedChunk(expected, tag));
    }
    let _size = r.read_u32::<E>()?;
    let _f0 = r.read_u16::<E>()?;
    let _f1 = r.read_u16::<E>()?;
    let _max = r.read_u32::<E>()?;
    let used = r.read_u32::<E>()?;
    let ghost base = pos0 + 20;
    assert(r.posn() == base);
    let mut keys: Vec<Key> = Vec::new();
    let mut i: u32 = 0;
    while i < used
        invariant
            i <= used,
            r.stream() == s,
            r.posn() == base + 12 * (i as int),
            r.posn() <= s.len(),
            keys@ =~= Seq::new(i as nat, |j: int| spec_key_at(s, big, base + 12 * j)),
        decreases used - i,
    {
        let owned = match r.read_u32::<E>() {
            Ok(v) => v,
            Err(_) => {
                return Err(Error::Io);
            },
        };
        let owner = match r.read_u32::<E>() {
            Ok(v) => v,
            Err(_) => {
                return Err(Error::Io);
            },
        };
        let chunk = match read_fourcc::<E>(r) {
            Ok(t) => t,
            Err(_) => {
                return Err(Error::Io);
            },
        };
        let key = Key { owned, owner, chunk };
        keys.push(key);
        proof {
            assert(key == spec_key_at(s, big, base + 12 * (i as int)));
            assert(keys@ =~= Seq::new((i + 1) as nat, |j: int| spec_key_at(s, big, base + 12 * j)));
        }
        i = i + 1;
    }
    proof {
        assert(keys@ =~= Seq::new(used as nat, |j: int| spec_key_at(s, big, base + 12 * j)));
    }
    Ok(KeyTable { keys })
}

} // verus!
