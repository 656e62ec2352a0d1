//! The host's side of a contract that runs outside a browser, and the hashes by
//! which a contract declares its methods.

use vstd::prelude::*;
use vstd::utf8::encode_utf8;
use wasmtime::component::Val as WasmVal;

use crate::builtin;
use crate::cardano;
use crate::link::EventHandler;
use crate::text::{chars_of, text_of};
use crate::wire::le_number;

verus! {

/// The identity of a method: a 256-bit hash, as four words.
pub type MethodHash = (u64, u64, u64, u64);

/// What a contract is told of the chain that it runs on.
#[derive(Clone, Copy, Debug, Default)]
pub struct CardanoCtx {
    /// What `cardano#block-height` returns.
    pub block_height: i64,
    /// What `cardano#current-slot` returns.
    pub current_slot: i64,
}

/// The host data of a contract: what it is told of the chain, and the methods that
/// it has declared. No hash is held twice.
#[derive(Debug)]
pub struct Ctx {
    cardano: CardanoCtx,
    implemented: Vec<MethodHash>,
}

impl Ctx {
    /// The hashes that were declared.
    pub closed spec fn declared(&self) -> Set<MethodHash> {
        self.implemented@.to_set()
    }

    /// What the contract is told of the chain.
    pub closed spec fn chain(&self) -> CardanoCtx {
        self.cardano
    }

    /// Whether no hash is held twice.
    #[verifier::type_invariant]
    spec fn well_formed(self) -> bool {
        self.implemented@.no_duplicates()
    }

    /// Host data with nothing declared yet.
    pub fn new(cardano: CardanoCtx) -> (r: Ctx)
        ensures
            r.chain() == cardano,
            r.declared() == Set::<MethodHash>::empty(),
    {
        let r = Ctx { cardano, implemented: Vec::new() };
        assert(r.declared() =~= Set::<MethodHash>::empty());
        r
    }

    /// Whether a hash was declared.
    pub fn implements(&self, hash: MethodHash) -> (r: bool)
        ensures
            r == self.declared().contains(hash),
    {
        let mut i: usize = 0;
        while i < self.implemented.len()
            invariant
                0 <= i <= self.implemented@.len(),
                forall|j: int| 0 <= j < i ==> self.implemented@[j] != hash,
            decreases self.implemented@.len() - i,
        {
            if same_hash(self.implemented[i], hash) {
                assert(self.implemented@[i as int] == hash);
                return true;
            }
            i += 1;
        }
        false
    }

    /// The number of hashes that were declared.
    pub fn count(&self) -> (n: usize)
        ensures
            n == self.declared().len(),
    {
        proof {
            use_type_invariant(self);
            self.implemented@.unique_seq_to_set();
        }
        self.implemented.len()
    }
}

impl Default for Ctx {
    /// Host data of a chain at its start, with nothing declared yet.
    fn default() -> (r: Ctx)
        ensures
            r.chain() == (CardanoCtx { block_height: 0, current_slot: 0 }),
            r.declared() == Set::<MethodHash>::empty(),
    {
        Ctx::new(CardanoCtx { block_height: 0, current_slot: 0 })
    }
}

impl Clone for Ctx {
    fn clone(&self) -> (r: Ctx)
        ensures
            r.chain() == self.chain(),
            r.declared() == self.declared(),
    {
        let mut implemented: Vec<MethodHash> = Vec::new();
        let mut i: usize = 0;
        while i < self.implemented.len()
            invariant
                0 <= i <= self.implemented@.len(),
                implemented@ == self.implemented@.take(i as int),
            decreases self.implemented@.len() - i,
        {
            implemented.push(self.implemented[i]);
            assert(implemented@ =~= self.implemented@.take(i + 1));
            i += 1;
        }
        proof {
            use_type_invariant(self);
            assert(implemented@ =~= self.implemented@);
        }
        Ctx { cardano: self.cardano, implemented }
    }
}

fn same_hash(a: MethodHash, b: MethodHash) -> (r: bool)
    ensures
        r == (a == b),
{
    a.0 == b.0 && a.1 == b.1 && a.2 == b.2 && a.3 == b.3
}

impl builtin::Host for Ctx {
    /// Records the hash of a method that the guest implements.
    fn implements_method(&mut self, hash: (u64, u64, u64, u64)) -> (r: Result<(), wasmtime::Error>)
        ensures
            r is Ok,
            final(self).declared() == old(self).declared().insert(hash),
            final(self).chain() == old(self).chain(),
    {
        if !self.implements(hash) {
            let ghost before = self.implemented@;
            let mut implemented: Vec<MethodHash> = Vec::new();
            proof {
                use_type_invariant(&*self);
            }
            std::mem::swap(&mut self.implemented, &mut implemented);
            implemented.push(hash);
            assert(implemented@.to_set() =~= before.to_set().insert(hash)) by {
                broadcast use vstd::seq_lib::group_seq_properties;

                assert(implemented@ == before.push(hash));
                before.lemma_push_to_set_commute(hash);
            }
            std::mem::swap(&mut self.implemented, &mut implemented);
        } else {
            assert(self.declared().insert(hash) =~= self.declared());
        }
        Ok(())
    }
}

impl cardano::Host for Ctx {
    fn block_height(&mut self) -> (r: i64)
        ensures
            r == old(self).chain().block_height,
            *final(self) == *old(self),
    {
        self.cardano.block_height
    }

    fn current_slot(&mut self) -> (r: i64)
        ensures
            r == old(self).chain().current_slot,
            *final(self) == *old(self),
    {
        self.cardano.current_slot
    }
}

impl EventHandler for Ctx {
    /// Events leave no trace in the host data.
    fn emit_event(&mut self, instance: &str, name: &str, params: &[WasmVal])
        ensures
            *final(self) == *old(self),
    {
    }
}

/// The part of an export's name behind its last dot.
pub open spec fn last_segment(export: Seq<char>) -> Seq<char>
    decreases export.len(),
{
    if export.len() == 0 || export.last() == '.' {
        Seq::empty()
    } else {
        last_segment(export.drop_last()).push(export.last())
    }
}

/// A name with hyphens made underscores.
pub open spec fn snake(name: Seq<char>) -> Seq<char> {
    Seq::new(
        name.len(),
        |i: int|
            if name[i] == '-' {
                '_'
            } else {
                name[i]
            },
    )
}

/// The SHA-256 digest of some bytes.
pub uninterp spec fn sha256(bytes: Seq<u8>) -> Seq<u8>;

/// `sha2::Sha256::digest`: the digest, which is 32 bytes.
#[verifier::external_body]
fn digest(bytes: &[u8]) -> (r: Vec<u8>)
    ensures
        r@ == sha256(bytes@),
        r@.len() == 32,
{
    <sha2::Sha256 as sha2::Digest>::digest(bytes).to_vec()
}

/// A digest as four words, least significant byte first.
pub open spec fn words(digest: Seq<u8>) -> MethodHash {
    (
        le_number(digest, 8) as u64,
        le_number(digest.skip(8), 8) as u64,
        le_number(digest.skip(16), 8) as u64,
        le_number(digest.skip(24), 8) as u64,
    )
}

/// The hash that a contract declares for an export: that of the name that the
/// method has in its source, where it is written with underscores.
pub open spec fn hash_of(export: Seq<char>) -> MethodHash {
    words(sha256(encode_utf8(snake(last_segment(export)))))
}

/// The part of an export's name behind its last dot.
pub fn segment_of(export: &str) -> (r: String)
    ensures
        r@ == last_segment(export@),
{
    let v = chars_of(export);
    let mut from: usize = 0;
    let mut i: usize = 0;
    assert(v@.take(0) =~= Seq::<char>::empty());
    assert(last_segment(v@.take(0)) =~= v@.subrange(0, 0));
    while i < v.len()
        invariant
            0 <= from <= i <= v@.len(),
            last_segment(v@.take(i as int)) == v@.subrange(from as int, i as int),
        decreases v@.len() - i,
    {
        assert(v@.take(i + 1).drop_last() =~= v@.take(i as int));
        assert(v@.take(i + 1).last() == v@[i as int]);
        if v[i] == '.' {
            from = i + 1;
            assert(v@.subrange(from as int, i + 1) =~= Seq::<char>::empty());
        } else {
            assert(v@.subrange(from as int, i + 1) =~= v@.subrange(from as int, i as int).push(
                v@[i as int],
            ));
        }
        i += 1;
    }
    assert(v@.take(i as int) =~= export@);
    text_of(&v, from, i)
}

/// The name that a method has in its source.
pub fn source_name(export: &str) -> (r: String)
    ensures
        r@ == snake(last_segment(export@)),
{
    let segment = segment_of(export);
    let v = chars_of(segment.as_str());
    let mut r = String::new();
    let mut i: usize = 0;
    assert(r@ =~= snake(v@).take(0));
    while i < v.len()
        invariant
            0 <= i <= v@.len(),
            r@ == snake(v@).take(i as int),
        decreases v@.len() - i,
    {
        if v[i] == '-' {
            r.push('_');
        } else {
            r.push(v[i]);
        }
        assert(r@ =~= snake(v@).take(i + 1));
        i += 1;
    }
    assert(snake(v@).take(i as int) =~= snake(v@));
    r
}

/// The number whose little-endian bytes stand at `at`.
fn word(digest: &Vec<u8>, at: usize) -> (r: u64)
    requires
        at + 8 <= digest@.len(),
    ensures
        r == le_number(digest@.skip(at as int), 8),
{
    let ghost s = digest@.skip(at as int);
    let len: usize = digest.len();
    assert(at + 8 <= len);
    proof {
        reveal_with_fuel(le_number, 9);
        assert(s.skip(1)[0] == s[1]);
        assert(s.skip(1).skip(1) =~= s.skip(2));
        assert(s.skip(2).skip(1) =~= s.skip(3));
        assert(s.skip(3).skip(1) =~= s.skip(4));
        assert(s.skip(4).skip(1) =~= s.skip(5));
        assert(s.skip(5).skip(1) =~= s.skip(6));
        assert(s.skip(6).skip(1) =~= s.skip(7));
    }
    let low: u64 = digest[at] as u64 + 256 * (digest[at + 1] as u64) + 65536 * (digest[at
        + 2] as u64) + 16777216 * (digest[at + 3] as u64);
    let high: u64 = digest[at + 4] as u64 + 256 * (digest[at + 5] as u64) + 65536 * (digest[at
        + 6] as u64) + 16777216 * (digest[at + 7] as u64);
    low + 4294967296 * high
}

/// A digest as four words.
pub fn hash_words(digest: &Vec<u8>) -> (r: MethodHash)
    requires
        digest@.len() == 32,
    ensures
        r == words(digest@),
{
    assert(digest@.skip(0) =~= digest@);
    (word(digest, 0), word(digest, 8), word(digest, 16), word(digest, 24))
}

/// The hash that a contract declares for an export.
pub fn method_hash(export: &str) -> (r: MethodHash)
    ensures
        r == hash_of(export@),
{
    let name = source_name(export);
    let d = digest(name.as_str().as_bytes());
    hash_words(&d)
}

/// The prefix of an export does not enter its hash: names that end alike behind
/// their last dot are declared alike.
pub proof fn hash_ignores_prefix(prefix: Seq<char>, name: Seq<char>)
    requires
        !name.contains('.'),
    ensures
        last_segment(prefix.push('.') + name) == name,
        hash_of(prefix.push('.') + name) == hash_of(name),
    decreases name.len(),
{
    lemma_segment(prefix, name);
    lemma_whole_segment(name);
}

proof fn lemma_segment(prefix: Seq<char>, name: Seq<char>)
    requires
        !name.contains('.'),
    ensures
        last_segment(prefix.push('.') + name) == name,
    decreases name.len(),
{
    let whole = prefix.push('.') + name;
    if name.len() == 0 {
        assert(whole =~= prefix.push('.'));
        assert(last_segment(whole) =~= name);
    } else {
        assert(whole.drop_last() =~= prefix.push('.') + name.drop_last());
        assert(whole.last() == name.last());
        assert(name.contains(name[name.len() - 1]));
        assert forall|c: char| name.drop_last().contains(c) implies name.contains(c) by {
            let i = choose|i: int|
                0 <= i < name.drop_last().len() && name.drop_last()[i] == c;
            assert(name[i] == c);
        }
        lemma_segment(prefix, name.drop_last());
        assert(name.drop_last().push(name.last()) =~= name);
    }
}

pub(crate) proof fn lemma_whole_segment(name: Seq<char>)
    requires
        !name.contains('.'),
    ensures
        last_segment(name) == name,
    decreases name.len(),
{
    if name.len() == 0 {
        assert(last_segment(name) =~= name);
    } else {
        assert(name.contains(name[name.len() - 1]));
        assert forall|c: char| name.drop_last().contains(c) implies name.contains(c) by {
            let i = choose|i: int|
                0 <= i < name.drop_last().len() && name.drop_last()[i] == c;
            assert(name[i] == c);
        }
        lemma_whole_segment(name.drop_last());
        assert(name.drop_last().push(name.last()) =~= name);
    }
}

/// A name with hyphens and the same name with underscores have one hash.
pub proof fn hash_ignores_hyphens(name: Seq<char>)
    requires
        !name.contains('.'),
    ensures
        hash_of(snake(name)) == hash_of(name),
{
    assert forall|c: char| snake(name).contains(c) implies c != '.' by {
        let i = choose|i: int| 0 <= i < snake(name).len() && snake(name)[i] == c;
        assert(name.contains(name[i]));
    }
    lemma_whole_segment(name);
    lemma_whole_segment(snake(name));
    assert(snake(snake(name)) =~= snake(name));
}

/// The hash of an export is that of the part behind its last dot, with an underscore for
/// each hyphen: the name that the method has in its source.
pub proof fn hashes_are_those_of_source_names(
    export: &str,
    r: MethodHash,
    prefix: Seq<char>,
    name: Seq<char>,
    source: Seq<char>,
)
    requires
        call_ensures(method_hash, (export,), r),
        export@ == prefix + seq!['.'] + name || export@ == name,
        !name.contains('.'),
        source.len() == name.len(),
        forall|i: int|
            0 <= i < name.len() ==> #[trigger] source[i] == if name[i] == '-' {
                '_'
            } else {
                name[i]
            },
    ensures
        r == words(sha256(encode_utf8(source))),
{
    assert(prefix + seq!['.'] + name =~= prefix.push('.') + name);
    lemma_segment(prefix, name);
    lemma_whole_segment(name);
    assert(snake(name) =~= source);
}

/// The last segment of an export is what stands behind its last dot.
pub proof fn segments_stand_behind_the_last_dot(
    export: &str,
    r: String,
    prefix: Seq<char>,
    name: Seq<char>,
)
    requires
        call_ensures(segment_of, (export,), r),
        export@ == prefix + seq!['.'] + name || export@ == name,
        !name.contains('.'),
    ensures
        r@ == name,
        last_segment(export@) == name,
{
    assert(prefix + seq!['.'] + name =~= prefix.push('.') + name);
    lemma_segment(prefix, name);
    lemma_whole_segment(name);
}

/// The words of a digest are its bytes in groups of eight, the lowest first.
pub proof fn words_are_little_endian(digest: &Vec<u8>, r: MethodHash)
    requires
        digest@.len() == 32,
        call_ensures(hash_words, (digest,), r),
    ensures
        r == words(digest@),
        r.0 == eight_bytes(digest@, 0),
        r.1 == eight_bytes(digest@, 8),
        r.2 == eight_bytes(digest@, 16),
        r.3 == eight_bytes(digest@, 24),
{
    lemma_word(digest@, 0);
    lemma_word(digest@, 8);
    lemma_word(digest@, 16);
    lemma_word(digest@, 24);
    assert(digest@.skip(0) =~= digest@);
}

/// The number whose bytes stand at `at`, the lowest first.
pub open spec fn eight_bytes(d: Seq<u8>, at: int) -> int {
    d[at] + 0x100 * (d[at + 1] + 0x100 * (d[at + 2] + 0x100 * (d[at + 3] + 0x100 * (d[at + 4]
        + 0x100 * (d[at + 5] + 0x100 * (d[at + 6] + 0x100 * d[at + 7]))))))
}

proof fn lemma_word(d: Seq<u8>, at: int)
    requires
        0 <= at,
        at + 8 <= d.len(),
    ensures
        le_number(d.skip(at), 8) == eight_bytes(d, at),
        0 <= eight_bytes(d, at) <= u64::MAX,
{
    reveal_with_fuel(le_number, 9);
    assert(d.skip(at).skip(1) =~= d.skip(at + 1));
    assert(d.skip(at + 1).skip(1) =~= d.skip(at + 2));
    assert(d.skip(at + 2).skip(1) =~= d.skip(at + 3));
    assert(d.skip(at + 3).skip(1) =~= d.skip(at + 4));
    assert(d.skip(at + 4).skip(1) =~= d.skip(at + 5));
    assert(d.skip(at + 5).skip(1) =~= d.skip(at + 6));
    assert(d.skip(at + 6).skip(1) =~= d.skip(at + 7));
}

} // verus!
