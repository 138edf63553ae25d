//! The symbol table: names resolved to 16-bit binary address strings.
//!
//! The table is seeded with the machine's predefined names, extended with
//! label bindings during the label pass, and with fresh variable addresses
//! (16, 17, ... in first-occurrence order) during the variable pass.  It is
//! kept as parallel vectors of names and values whose mathematical meaning is
//! a `Map<Seq<char>, Seq<char>>`.

use vstd::prelude::*;
use crate::numeral::{bin_of, dec_val, is_decimal, lemma_dec_val_step_mod};
use crate::text::{chars_eq, copy_text, text_of};

verus! {

/// A name-to-address mapping, later entries overriding earlier ones.
pub open spec fn assoc_map(keys: Seq<Vec<char>>, vals: Seq<Vec<char>>) -> Map<
    Seq<char>,
    Seq<char>,
>
    decreases keys.len(),
{
    if keys.len() == 0 || vals.len() == 0 {
        Map::empty()
    } else {
        assoc_map(keys.drop_last(), vals.drop_last()).insert(keys.last()@, vals.last()@)
    }
}

/// A key is bound exactly when some entry carries it.
pub proof fn lemma_assoc_contains(keys: Seq<Vec<char>>, vals: Seq<Vec<char>>, k: Seq<char>)
    requires
        keys.len() == vals.len(),
    ensures
        assoc_map(keys, vals).contains_key(k) <==> exists|i: int|
            0 <= i < keys.len() && keys[i]@ == k,
    decreases keys.len(),
{
    if keys.len() > 0 {
        lemma_assoc_contains(keys.drop_last(), vals.drop_last(), k);
        if assoc_map(keys, vals).contains_key(k) {
            if keys.last()@ != k {
                let i = choose|i: int| 0 <= i < keys.len() - 1 && keys.drop_last()[i]@ == k;
                assert(keys[i]@ == k);
            }
        } else {
            assert(forall|i: int|
                0 <= i < keys.len() - 1 ==> keys.drop_last()[i] == keys[i]);
        }
    }
}

/// With no name bound twice, each entry gives its key's value in the map.
pub proof fn lemma_assoc_index(keys: Seq<Vec<char>>, vals: Seq<Vec<char>>, i: int)
    requires
        keys.len() == vals.len(),
        forall|p: int, q: int| 0 <= p < q < keys.len() ==> keys[p]@ != keys[q]@,
        0 <= i < keys.len(),
    ensures
        assoc_map(keys, vals).contains_key(keys[i]@),
        assoc_map(keys, vals)[keys[i]@] == vals[i]@,
    decreases keys.len(),
{
    lemma_assoc_contains(keys, vals, keys[i]@);
    if i < keys.len() - 1 {
        assert(keys[i]@ != keys.last()@);
        assert(keys.drop_last()[i] == keys[i]);
        assert(vals.drop_last()[i] == vals[i]);
        lemma_assoc_index(keys.drop_last(), vals.drop_last(), i);
    }
}

/// Overwriting one entry's value in place rebinds exactly that entry's key.
pub proof fn lemma_assoc_update(keys: Seq<Vec<char>>, vals: Seq<Vec<char>>, i: int, v: Vec<char>)
    requires
        keys.len() == vals.len(),
        forall|p: int, q: int| 0 <= p < q < keys.len() ==> keys[p]@ != keys[q]@,
        0 <= i < keys.len(),
    ensures
        assoc_map(keys, vals.update(i, v)) == assoc_map(keys, vals).insert(keys[i]@, v@),
    decreases keys.len(),
{
    let n = keys.len();
    if i == n - 1 {
        assert(vals.update(i, v).drop_last() =~= vals.drop_last());
        assert(vals.update(i, v).last() == v);
        assert(assoc_map(keys, vals.update(i, v)) =~= assoc_map(keys, vals).insert(
            keys[i]@,
            v@,
        ));
    } else {
        assert(vals.update(i, v).drop_last() =~= vals.drop_last().update(i, v));
        assert(vals.update(i, v).last() == vals.last());
        assert(keys.drop_last()[i] == keys[i]);
        lemma_assoc_update(keys.drop_last(), vals.drop_last(), i, v);
        assert(keys[i]@ != keys.last()@);
        assert(assoc_map(keys, vals.update(i, v)) =~= assoc_map(keys, vals).insert(
            keys[i]@,
            v@,
        ));
    }
}

/// The fixed register, I/O-region and pseudo-register names, each bound to
/// its documented address before any pass runs.
pub open spec fn predefined_symbols() -> Map<Seq<char>, Seq<char>> {
    Map::empty()
        .insert("R0"@, bin_of(0, 16))
        .insert("R1"@, bin_of(1, 16))
        .insert("R2"@, bin_of(2, 16))
        .insert("R3"@, bin_of(3, 16))
        .insert("R4"@, bin_of(4, 16))
        .insert("R5"@, bin_of(5, 16))
        .insert("R6"@, bin_of(6, 16))
        .insert("R7"@, bin_of(7, 16))
        .insert("R8"@, bin_of(8, 16))
        .insert("R9"@, bin_of(9, 16))
        .insert("R10"@, bin_of(10, 16))
        .insert("R11"@, bin_of(11, 16))
        .insert("R12"@, bin_of(12, 16))
        .insert("R13"@, bin_of(13, 16))
        .insert("R14"@, bin_of(14, 16))
        .insert("R15"@, bin_of(15, 16))
        .insert("SCREEN"@, bin_of(16384, 16))
        .insert("KBD"@, bin_of(24576, 16))
        .insert("SP"@, bin_of(0, 16))
        .insert("LCL"@, bin_of(1, 16))
        .insert("ARG"@, bin_of(2, 16))
        .insert("THIS"@, bin_of(3, 16))
        .insert("THAT"@, bin_of(4, 16))
}

pub struct SymbolTable {
    pub keys: Vec<Vec<char>>,
    pub vals: Vec<Vec<char>>,
    pub variable_count: u16,
    pub variable_offset: u16,
}

impl View for SymbolTable {
    type V = Map<Seq<char>, Seq<char>>;

    open spec fn view(&self) -> Map<Seq<char>, Seq<char>> {
        assoc_map(self.keys@, self.vals@)
    }
}

impl SymbolTable {
    /// One value per name and no name listed twice.
    pub open spec fn wf(self) -> bool {
        &&& self.keys@.len() == self.vals@.len()
        &&& forall|p: int, q: int|
            0 <= p < q < self.keys@.len() ==> self.keys@[p]@ != self.keys@[q]@
    }

    /// A table holding exactly the predefined names, with no variable
    /// allocated yet and allocation starting at address 16.
    pub fn new() -> (t: SymbolTable)
        ensures
            t.wf(),
            t@ == predefined_symbols(),
            t.variable_count == 0,
            t.variable_offset == 16,
    {
        let mut t = SymbolTable {
            keys: Vec::new(),
            vals: Vec::new(),
            variable_count: 0,
            variable_offset: 16,
        };
        t.seed("R0", 0);
        t.seed("R1", 1);
        t.seed("R2", 2);
        t.seed("R3", 3);
        t.seed("R4", 4);
        t.seed("R5", 5);
        t.seed("R6", 6);
        t.seed("R7", 7);
        t.seed("R8", 8);
        t.seed("R9", 9);
        t.seed("R10", 10);
        t.seed("R11", 11);
        t.seed("R12", 12);
        t.seed("R13", 13);
        t.seed("R14", 14);
        t.seed("R15", 15);
        t.seed("SCREEN", 16384);
        t.seed("KBD", 24576);
        t.seed("SP", 0);
        t.seed("LCL", 1);
        t.seed("ARG", 2);
        t.seed("THIS", 3);
        t.seed("THAT", 4);
        t
    }

    /// Binds one predefined name to the binary numeral of its address.
    fn seed(&mut self, name: &str, value: u16)
        requires
            old(self).wf(),
        ensures
            final(self).wf(),
            final(self)@ == old(self)@.insert(name@, bin_of(value as nat, 16)),
            final(self).variable_count == old(self).variable_count,
            final(self).variable_offset == old(self).variable_offset,
    {
        let key = text_of(name);
        let val = SymbolTable::u16_to_bin(value);
        self.insert(&key, &val);
    }

    /// Whether the text is a well-formed numeric address operand: a non-empty
    /// run of decimal digits.
    pub fn is_address(addr: &Vec<char>) -> (r: bool)
        ensures
            r == is_decimal(addr@),
    {
        if addr.len() == 0 {
            return false;
        }
        let mut i: usize = 0;
        while i < addr.len()
            invariant
                i <= addr.len(),
                forall|j: int| 0 <= j < i ==> crate::numeral::is_digit(#[trigger] addr@[j]),
            decreases addr.len() - i,
        {
            let u = addr[i] as u32;
            if u < 48 || u > 57 {
                return false;
            }
            i += 1;
        }
        true
    }

    /// Reads a decimal numeral, accumulating modulo 2^16 as the fixed-width
    /// encoding does.
    pub fn string_to_u16(num: &Vec<char>) -> (r: u16)
        requires
            is_decimal(num@),
        ensures
            r as nat == dec_val(num@) % 0x10000,
    {
        let mut total: u32 = 0;
        let mut i: usize = 0;
        while i < num.len()
            invariant
                is_decimal(num@),
                i <= num.len(),
                total == dec_val(num@.take(i as int)) as int % 0x10000,
            decreases num.len() - i,
        {
            let c = num[i];
            let d = (c as u32) - 48;
            proof {
                assert(crate::numeral::is_digit(num@[i as int]));
                assert(num@.take(i as int + 1).drop_last() =~= num@.take(i as int));
                assert(num@.take(i as int + 1) =~= num@.take(i as int).push(num@[i as int]));
                lemma_dec_val_step_mod(num@.take(i as int), num@[i as int], 0x10000);
            }
            total = (total * 10 + d) % 0x10000;
            i += 1;
        }
        proof {
            assert(num@.take(num@.len() as int) =~= num@);
        }
        total as u16
    }

    /// Renders a 16-bit value as its binary numeral, most-significant bit
    /// first, zero-padded to 16 characters.
    pub fn u16_to_bin(input: u16) -> (r: Vec<char>)
        ensures
            r@ == bin_of(input as nat, 16),
    {
        let mut bits: Vec<char> = Vec::new();
        let mut num: u16 = input;
        let mut w: usize = 0;
        while w < 16
            invariant
                w <= 16,
                bits@.len() == w,
                bin_of(input as nat, 16) == bin_of(num as nat, (16 - w) as nat) + bits@.reverse(),
            decreases 16 - w,
        {
            let b: char = if num % 2 == 1 {
                '1'
            } else {
                '0'
            };
            proof {
                let rest = bin_of(num as nat / 2, (16 - w - 1) as nat);
                assert(bin_of(num as nat, (16 - w) as nat) == rest.push(b));
                assert(bits@.push(b).reverse() =~= seq![b] + bits@.reverse());
                assert(rest.push(b) + bits@.reverse() =~= rest + (seq![b] + bits@.reverse()));
            }
            bits.push(b);
            num = num / 2;
            w += 1;
        }
        assert(bin_of(input as nat, 16) =~= bits@.reverse());
        let mut r: Vec<char> = Vec::new();
        let mut i: usize = 0;
        while i < 16
            invariant
                i <= 16,
                bits@.len() == 16,
                r@.len() == i,
                forall|j: int| 0 <= j < i ==> r@[j] == bits@[15 - j],
            decreases 16 - i,
        {
            r.push(bits[15 - i]);
            i += 1;
        }
        proof {
            assert(r@ =~= bits@.reverse());
        }
        r
    }

    /// Allocates the next free address for an unbound name; a bound name is
    /// left exactly as it is.
    pub fn insert_variable(&mut self, key: &Vec<char>)
        requires
            old(self).wf(),
            !old(self)@.contains_key(key@) ==> old(self).variable_offset + old(
                self,
            ).variable_count < 0x10000 && old(self).variable_count < 0xffff,
        ensures
            final(self).wf(),
            old(self)@.contains_key(key@) ==> *final(self) == *old(self),
            !old(self)@.contains_key(key@) ==> {
                &&& final(self)@ == old(self)@.insert(
                    key@,
                    bin_of((old(self).variable_offset + old(self).variable_count) as nat, 16),
                )
                &&& final(self).variable_count == old(self).variable_count + 1
                &&& final(self).variable_offset == old(self).variable_offset
            },
    {
        if self.get(key).is_some() {
            return ;
        }
        let target = self.variable_offset + self.variable_count;
        let addr = SymbolTable::u16_to_bin(target);
        self.insert(key, &addr);
        self.variable_count = self.variable_count + 1;
    }

    /// Binds a name to a value, replacing any earlier binding.
    pub fn insert(&mut self, key: &Vec<char>, val: &Vec<char>)
        requires
            old(self).wf(),
        ensures
            final(self).wf(),
            final(self)@ == old(self)@.insert(key@, val@),
            final(self).variable_count == old(self).variable_count,
            final(self).variable_offset == old(self).variable_offset,
    {
        let mut i: usize = 0;
        while i < self.keys.len()
            invariant
                self.wf(),
                *self == *old(self),
                i <= self.keys@.len(),
                forall|j: int| 0 <= j < i ==> self.keys@[j]@ != key@,
            decreases self.keys@.len() - i,
        {
            if chars_eq(&self.keys[i], key) {
                let ghost ov = self.vals@;
                let v = copy_text(val);
                proof {
                    lemma_assoc_update(self.keys@, self.vals@, i as int, v);
                }
                self.vals[i] = v;
                return ;
            }
            i += 1;
        }
        let k = copy_text(key);
        let v = copy_text(val);
        proof {
            assert(self.keys@.push(k).drop_last() =~= self.keys@);
            assert(self.vals@.push(v).drop_last() =~= self.vals@);
        }
        self.keys.push(k);
        self.vals.push(v);
    }

    /// Looks a name up: its bound value, or nothing for an unbound name.
    pub fn get(&self, key: &Vec<char>) -> (r: Option<&Vec<char>>)
        requires
            self.wf(),
        ensures
            match r {
                Some(v) => self@.contains_key(key@) && v@ == self@[key@],
                None => !self@.contains_key(key@),
            },
    {
        let mut i: usize = 0;
        while i < self.keys.len()
            invariant
                self.wf(),
                i <= self.keys@.len(),
                forall|j: int| 0 <= j < i ==> self.keys@[j]@ != key@,
            decreases self.keys@.len() - i,
        {
            if chars_eq(&self.keys[i], key) {
                proof {
                    lemma_assoc_index(self.keys@, self.vals@, i as int);
                }
                return Some(&self.vals[i]);
            }
            i += 1;
        }
        proof {
            lemma_assoc_contains(self.keys@, self.vals@, key@);
        }
        None
    }
}

} // verus!
