//! Identifiers.

use vstd::prelude::*;

verus! {

/// The 128 bits of the UUID that a text names.
pub uninterp spec fn uuid_bits(s: Seq<char>) -> Option<u128>;

/// A hexadecimal digit in lower case.
pub open spec fn hex_char(d: nat) -> char {
    if d < 10 {
        (48 + d) as u8 as char
    } else {
        (87 + d) as u8 as char
    }
}

/// The last `count` hexadecimal digits of a number.
pub open spec fn hex_digits(n: nat, count: nat) -> Seq<char>
    decreases count,
{
    if count == 0 {
        Seq::empty()
    } else {
        hex_digits(n / 16, (count - 1) as nat).push(hex_char(n % 16))
    }
}

pub(crate) proof fn lemma_hex_digits(n: nat, count: nat)
    ensures
        hex_digits(n, count).len() == count,
    decreases count,
{
    if count > 0 {
        lemma_hex_digits(n / 16, (count - 1) as nat);
    }
}

/// The hyphenated form of a UUID: its hexadecimal digits in groups of eight,
/// four, four, four and twelve.
pub open spec fn uuid_text(bits: u128) -> Seq<char> {
    let d = hex_digits(bits as nat, 32);
    d.subrange(0, 8) + seq!['-'] + d.subrange(8, 12) + seq!['-'] + d.subrange(12, 16) + seq!['-']
        + d.subrange(16, 20) + seq!['-'] + d.subrange(20, 32)
}

/// `uuid::Uuid::new_v4` as the 128 bits of the identifier. Nothing is claimed of
/// the bits: they are drawn at random.
#[verifier::external_body]
pub(crate) fn fresh_id() -> (r: u128) {
    uuid::Uuid::new_v4().as_u128()
}

/// `uuid::Uuid::parse_str`, as the 128 bits of the identifier. Whether a text is
/// a UUID, and which, is a function of the text.
#[verifier::external_body]
pub(crate) fn parse_uuid(s: &str) -> (r: Option<u128>)
    ensures
        r == uuid_bits(s@),
{
    uuid::Uuid::parse_str(s).ok().map(|u| u.as_u128())
}

/// The `Display` form of a `uuid::Uuid`: the hyphenated form, in lower case,
/// which `uuid::Uuid::parse_str` reads as the same bits.
#[verifier::external_body]
pub(crate) fn format_uuid(bits: u128) -> (r: String)
    ensures
        r@ == uuid_text(bits),
        uuid_bits(r@) == Some(bits),
{
    uuid::Uuid::from_u128(bits).to_string()
}

/// A set of task ids.
pub struct IdSet {
    items: Vec<u128>,
}

impl View for IdSet {
    type V = Set<u128>;

    closed spec fn view(&self) -> Set<u128> {
        self.items@.to_set()
    }
}

impl IdSet {
    #[verifier::type_invariant]
    spec fn inv(self) -> bool {
        self.items@.no_duplicates()
    }

    /// The empty set.
    pub fn new() -> (r: IdSet)
        ensures
            r@ == Set::<u128>::empty(),
    {
        let r = IdSet { items: Vec::new() };
        assert(r@ =~= Set::<u128>::empty());
        r
    }

    /// How many ids there are.
    pub fn len(&self) -> (r: usize)
        ensures
            r == self@.len(),
            self@.finite(),
    {
        proof {
            use_type_invariant(self);
            self.items@.unique_seq_to_set();
        }
        self.items.len()
    }

    /// Whether the id is in the set.
    pub fn contains(&self, id: u128) -> (r: bool)
        ensures
            r == self@.contains(id),
    {
        self.find(id).is_some()
    }

    fn find(&self, id: u128) -> (r: Option<usize>)
        ensures
            match r {
                Some(i) => i < self.items@.len() && self.items@[i as int] == id
                    && self@.contains(id),
                None => !self@.contains(id),
            },
    {
        for i in 0..self.items.len()
            invariant
                forall|j: int| 0 <= j < i ==> self.items@[j] != id,
        {
            if self.items[i] == id {
                assert(self.items@.contains(id));
                return Some(i);
            }
        }
        assert(!self.items@.contains(id));
        None
    }

    /// Puts an id into the set.
    pub fn insert(&mut self, id: u128)
        ensures
            final(self)@ == old(self)@.insert(id),
    {
        proof {
            use_type_invariant(&*self);
        }
        if self.find(id).is_none() {
            let mut items: Vec<u128> = Vec::new();
            std::mem::swap(&mut items, &mut self.items);
            let ghost before = items@;
            items.push(id);
            proof {
                assert(!before.contains(id));
                assert(items@.to_set() =~= before.to_set().insert(id)) by {
                    assert(items@ =~= before.push(id));
                    assert forall|x: u128| items@.contains(x) == (before.contains(x) || x == id) by {
                        if before.contains(x) {
                            let j = choose|j: int| 0 <= j < before.len() && before[j] == x;
                            assert(items@[j] == x);
                        }
                        if x == id {
                            assert(items@[before.len() as int] == x);
                        }
                    }
                }
            }
            self.items = items;
        } else {
            assert(self@ =~= self@.insert(id));
        }
    }

    /// Takes an id out of the set, and says whether it was there.
    pub fn remove(&mut self, id: u128) -> (r: bool)
        ensures
            final(self)@ == old(self)@.remove(id),
            r == old(self)@.contains(id),
    {
        proof {
            use_type_invariant(&*self);
        }
        match self.find(id) {
            None => {
                assert(self@ =~= self@.remove(id));
                false
            },
            Some(i) => {
                let mut items: Vec<u128> = Vec::new();
                std::mem::swap(&mut items, &mut self.items);
                let ghost before = items@;
                let gone: u128 = items.remove(i);
                proof {
                    assert(items@ =~= before.remove(i as int));
                    assert(items@.no_duplicates());
                    assert forall|x: u128| items@.contains(x) == (before.contains(x) && x != id) by {
                        if items@.contains(x) {
                            let j = choose|j: int| 0 <= j < items@.len() && items@[j] == x;
                            let k = if j < i {
                                j
                            } else {
                                j + 1
                            };
                            assert(before[k] == x);
                        }
                        if before.contains(x) && x != id {
                            let k = choose|k: int| 0 <= k < before.len() && before[k] == x;
                            let j = if k < i {
                                k
                            } else {
                                k - 1
                            };
                            assert(items@[j] == x);
                        }
                    }
                    assert(items@.to_set() =~= before.to_set().remove(id));
                }
                self.items = items;
                true
            },
        }
    }
}

} // verus!
