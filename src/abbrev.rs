use std::collections::HashMap;

use vstd::prelude::*;
use vstd::std_specs::iter::IteratorSpec;

use crate::constant::{DwAt, DwForm, DwTag, DW_CHILDREN_no, DW_CHILDREN_yes};
use crate::leb128;
use crate::leb128::{lemma_u16_round_trip, lemma_u64_round_trip, lemma_uleb_len, uleb16_decode, uleb_bytes, uleb_decode};
use crate::read::{read_u8, ReadError};
use crate::write::write_u8;

verus! {

broadcast use vstd::std_specs::hash::group_hash_axioms;

/// One entry of an abbreviation's schema: an attribute name and its form.
#[derive(Debug, Clone, Copy, PartialEq, Eq, Structural)]
pub struct AbbrevAttribute {
    pub at: DwAt,
    pub form: DwForm,
}

/// The schema of a class of entries.
#[derive(Debug, Clone, PartialEq, Eq)]
pub struct Abbrev {
    pub code: u64,
    pub tag: DwTag,
    pub children: bool,
    pub attributes: Vec<AbbrevAttribute>,
}

/// What an abbreviation holds.
pub struct AbbrevSpec {
    pub code: u64,
    pub tag: DwTag,
    pub children: bool,
    pub attributes: Seq<AbbrevAttribute>,
}

impl View for Abbrev {
    type V = AbbrevSpec;

    open spec fn view(&self) -> AbbrevSpec {
        AbbrevSpec {
            code: self.code,
            tag: self.tag,
            children: self.children,
            attributes: self.attributes@,
        }
    }
}

/// Abbreviations keyed by code, as read from `.debug_abbrev`.
#[derive(Debug)]
pub struct AbbrevHash(pub HashMap<u64, Abbrev>);

impl View for AbbrevHash {
    type V = Map<u64, AbbrevSpec>;

    open spec fn view(&self) -> Map<u64, AbbrevSpec> {
        self.0@.map_values(|a: Abbrev| a@)
    }
}

/// Abbreviations in the order they are written.
#[derive(Debug)]
pub struct AbbrevVec(pub Vec<Abbrev>);

impl View for AbbrevVec {
    type V = Seq<AbbrevSpec>;

    open spec fn view(&self) -> Seq<AbbrevSpec> {
        self.0@.map_values(|a: Abbrev| a@)
    }
}

// ---------------------------------------------------------------------------
// Encoding

pub open spec fn is_null_attribute(a: AbbrevAttribute) -> bool {
    a.at == 0 && a.form == 0
}

/// Encoding of one attribute specification.
pub open spec fn attribute_bytes(a: AbbrevAttribute) -> Seq<u8> {
    uleb_bytes(a.at as nat) + uleb_bytes(a.form as nat)
}

/// Encoding of a schema, without its terminating null pair.
pub open spec fn attributes_bytes(s: Seq<AbbrevAttribute>) -> Seq<u8>
    decreases s.len(),
{
    if s.len() == 0 {
        seq![]
    } else {
        attribute_bytes(s[0]) + attributes_bytes(s.drop_first())
    }
}

/// Encoding of an abbreviation; a zero code is written alone.
pub open spec fn abbrev_bytes(a: AbbrevSpec) -> Seq<u8> {
    if a.code == 0 {
        uleb_bytes(0)
    } else {
        uleb_bytes(a.code as nat) + uleb_bytes(a.tag as nat) + seq![if a.children { 1u8 } else { 0u8 }]
            + attributes_bytes(a.attributes) + seq![0u8, 0u8]
    }
}

/// Encoding of a list of abbreviations, without the terminating zero code.
pub open spec fn abbrevs_bytes(s: Seq<AbbrevSpec>) -> Seq<u8>
    decreases s.len(),
{
    if s.len() == 0 {
        seq![]
    } else {
        abbrev_bytes(s[0]) + abbrevs_bytes(s.drop_first())
    }
}

/// Encoding of an abbreviation table: the abbreviations, then a zero code.
pub open spec fn abbrev_table_bytes(s: Seq<AbbrevSpec>) -> Seq<u8> {
    abbrevs_bytes(s) + seq![0u8]
}

// ---------------------------------------------------------------------------
// Decoding

/// Decoding of an attribute specification; `None` for the null pair.
pub open spec fn attribute_decode(s: Seq<u8>) -> Result<(Option<AbbrevAttribute>, nat), ReadError> {
    match uleb16_decode(s) {
        Ok((at, n1)) => match uleb16_decode(s.skip(n1 as int)) {
            Ok((form, n2)) => {
                let a = AbbrevAttribute { at, form };
                Ok((if is_null_attribute(a) { None } else { Some(a) }, n1 + n2))
            },
            Err(e) => Err(e),
        },
        Err(e) => Err(e),
    }
}

pub proof fn lemma_uleb16_len(s: Seq<u8>)
    ensures
        uleb16_decode(s) matches Ok((v, n)) ==> 1 <= n <= s.len(),
{
    lemma_uleb_len(s, 0);
}

pub proof fn lemma_attribute_len(s: Seq<u8>)
    ensures
        attribute_decode(s) matches Ok((a, n)) ==> 1 <= n <= s.len(),
{
    lemma_uleb16_len(s);
    if let Ok((at, n1)) = uleb16_decode(s) {
        lemma_uleb16_len(s.skip(n1 as int));
    }
}

/// Decoding of a schema up to and including its null pair.
pub open spec fn attributes_decode(s: Seq<u8>) -> Result<(Seq<AbbrevAttribute>, nat), ReadError>
    decreases s.len(),
{
    match attribute_decode(s) {
        Ok((None, n)) => Ok((seq![], n)),
        Ok((Some(a), n)) => {
            proof {
                lemma_attribute_len(s);
            }
            match attributes_decode(s.skip(n as int)) {
                Ok((rest, m)) => Ok((seq![a] + rest, n + m)),
                Err(e) => Err(e),
            }
        },
        Err(e) => Err(e),
    }
}

pub proof fn lemma_attributes_len(s: Seq<u8>)
    ensures
        attributes_decode(s) matches Ok((v, n)) ==> 1 <= n <= s.len(),
    decreases s.len(),
{
    lemma_attribute_len(s);
    if let Ok((Some(a), n)) = attribute_decode(s) {
        lemma_attributes_len(s.skip(n as int));
    }
}

pub open spec fn children_decode(s: Seq<u8>) -> Result<bool, ReadError> {
    if s.len() == 0 {
        Err(ReadError::Eof)
    } else if s[0] == 0 {
        Ok(false)
    } else if s[0] == 1 {
        Ok(true)
    } else {
        Err(ReadError::Invalid)
    }
}

/// Decoding of an abbreviation; `None` for the zero code that ends a table.
pub open spec fn abbrev_decode(s: Seq<u8>) -> Result<(Option<AbbrevSpec>, nat), ReadError> {
    match uleb_decode(s) {
        Ok((code, n1)) => if code == 0 {
            Ok((None, n1))
        } else {
            match uleb16_decode(s.skip(n1 as int)) {
                Ok((tag, n2)) => match children_decode(s.skip((n1 + n2) as int)) {
                    Ok(children) => match attributes_decode(s.skip((n1 + n2 + 1) as int)) {
                        Ok((attributes, n3)) => Ok(
                            (
                                Some(AbbrevSpec { code: code as u64, tag, children, attributes }),
                                n1 + n2 + 1 + n3,
                            ),
                        ),
                        Err(e) => Err(e),
                    },
                    Err(e) => Err(e),
                },
                Err(e) => Err(e),
            }
        },
        Err(e) => Err(e),
    }
}

pub proof fn lemma_abbrev_len(s: Seq<u8>)
    ensures
        abbrev_decode(s) matches Ok((v, n)) ==> 1 <= n <= s.len(),
{
    lemma_uleb_len(s, 0);
    if let Ok((code, n1)) = uleb_decode(s) {
        lemma_uleb16_len(s.skip(n1 as int));
        if let Ok((tag, n2)) = uleb16_decode(s.skip(n1 as int)) {
            lemma_attributes_len(s.skip((n1 + n2 + 1) as int));
        }
    }
}

/// Decoding of the abbreviations from `s` on into the table `m`: a code that is
/// already there is an error.
pub open spec fn abbrev_table_from(s: Seq<u8>, m: Map<u64, AbbrevSpec>) -> Result<
    (Map<u64, AbbrevSpec>, nat),
    ReadError,
>
    decreases s.len(),
{
    match abbrev_decode(s) {
        Ok((None, n)) => Ok((m, n)),
        Ok((Some(a), n)) => if m.contains_key(a.code) {
            Err(ReadError::Invalid)
        } else {
            proof {
                lemma_abbrev_len(s);
            }
            match abbrev_table_from(s.skip(n as int), m.insert(a.code, a)) {
                Ok((t, k)) => Ok((t, n + k)),
                Err(e) => Err(e),
            }
        },
        Err(e) => Err(e),
    }
}

/// `r` with `k` more bytes taken.
pub open spec fn table_shift(k: nat, r: Result<(Map<u64, AbbrevSpec>, nat), ReadError>) -> Result<
    (Map<u64, AbbrevSpec>, nat),
    ReadError,
> {
    match r {
        Ok((t, n)) => Ok((t, n + k)),
        Err(e) => Err(e),
    }
}

/// `r` with `pre` in front of its schema and `k` more bytes taken.
pub open spec fn attributes_shift(
    pre: Seq<AbbrevAttribute>,
    k: nat,
    r: Result<(Seq<AbbrevAttribute>, nat), ReadError>,
) -> Result<(Seq<AbbrevAttribute>, nat), ReadError> {
    match r {
        Ok((t, n)) => Ok((pre + t, n + k)),
        Err(e) => Err(e),
    }
}

/// Decoding of an abbreviation table: the map by code and the bytes it takes.
pub open spec fn abbrev_table_decode(s: Seq<u8>) -> Result<(Map<u64, AbbrevSpec>, nat), ReadError> {
    abbrev_table_from(s, Map::empty())
}

// ---------------------------------------------------------------------------
// Round trip

proof fn lemma_attribute_round_trip(a: AbbrevAttribute, rest: Seq<u8>)
    requires
        !is_null_attribute(a),
    ensures
        attribute_decode(attribute_bytes(a) + rest) == Ok::<(Option<AbbrevAttribute>, nat), ReadError>(
            (Some(a), attribute_bytes(a).len()),
        ),
{
    let ba = uleb_bytes(a.at as nat);
    let bf = uleb_bytes(a.form as nat);
    let s = attribute_bytes(a) + rest;
    assert(s =~= ba + (bf + rest));
    lemma_u16_round_trip(a.at, bf + rest);
    assert(s.skip(ba.len() as int) =~= bf + rest);
    lemma_u16_round_trip(a.form, rest);
}

proof fn lemma_null_attribute_decode(rest: Seq<u8>)
    ensures
        attribute_decode(seq![0u8, 0u8] + rest) == Ok::<(Option<AbbrevAttribute>, nat), ReadError>(
            (None, 2),
        ),
{
    let s = seq![0u8, 0u8] + rest;
    assert(uleb_bytes(0) =~= seq![0u8]);
    assert(s =~= uleb_bytes(0) + (uleb_bytes(0) + rest));
    lemma_u16_round_trip(0, uleb_bytes(0) + rest);
    assert(s.skip(1) =~= uleb_bytes(0) + rest);
    lemma_u16_round_trip(0, rest);
}

proof fn lemma_attributes_round_trip(attrs: Seq<AbbrevAttribute>, rest: Seq<u8>)
    requires
        forall|i: int| 0 <= i < attrs.len() ==> !is_null_attribute(#[trigger] attrs[i]),
    ensures
        attributes_decode(attributes_bytes(attrs) + seq![0u8, 0u8] + rest) == Ok::<
            (Seq<AbbrevAttribute>, nat),
            ReadError,
        >((attrs, attributes_bytes(attrs).len() + 2)),
    decreases attrs.len(),
{
    let s = attributes_bytes(attrs) + seq![0u8, 0u8] + rest;
    if attrs.len() == 0 {
        assert(s =~= seq![0u8, 0u8] + rest);
        lemma_null_attribute_decode(rest);
        assert(attrs =~= seq![]);
    } else {
        let a = attrs[0];
        let tail = attrs.drop_first();
        let t = attributes_bytes(tail) + seq![0u8, 0u8] + rest;
        assert(s =~= attribute_bytes(a) + t);
        lemma_attribute_round_trip(a, t);
        assert(s.skip(attribute_bytes(a).len() as int) =~= t);
        lemma_attributes_round_trip(tail, rest);
        assert(seq![a] + tail =~= attrs);
    }
}

proof fn lemma_abbrev_round_trip(a: AbbrevSpec, rest: Seq<u8>)
    requires
        a.code != 0,
        forall|i: int| 0 <= i < a.attributes.len() ==> !is_null_attribute(#[trigger] a.attributes[i]),
    ensures
        abbrev_decode(abbrev_bytes(a) + rest) == Ok::<(Option<AbbrevSpec>, nat), ReadError>(
            (Some(a), abbrev_bytes(a).len()),
        ),
{
    let bc = uleb_bytes(a.code as nat);
    let bt = uleb_bytes(a.tag as nat);
    let ch: u8 = if a.children { 1u8 } else { 0u8 };
    let t3 = attributes_bytes(a.attributes) + seq![0u8, 0u8] + rest;
    let s = abbrev_bytes(a) + rest;
    assert(s =~= bc + (bt + (seq![ch] + t3)));
    lemma_u64_round_trip(a.code, bt + (seq![ch] + t3));
    assert(s.skip(bc.len() as int) =~= bt + (seq![ch] + t3));
    lemma_u16_round_trip(a.tag, seq![ch] + t3);
    assert(s.skip((bc.len() + bt.len()) as int) =~= seq![ch] + t3);
    assert(s.skip((bc.len() + bt.len() + 1) as int) =~= t3);
    lemma_attributes_round_trip(a.attributes, rest);
}

/// The table that results from adding each abbreviation of `s` to `m` in turn.
pub open spec fn insert_all(m: Map<u64, AbbrevSpec>, s: Seq<AbbrevSpec>) -> Map<u64, AbbrevSpec>
    decreases s.len(),
{
    if s.len() == 0 {
        m
    } else {
        insert_all(m.insert(s[0].code, s[0]), s.drop_first())
    }
}

/// Codes are nonzero and distinct, and no schema holds a null pair.
pub open spec fn writable_abbrevs(s: Seq<AbbrevSpec>) -> bool {
    &&& forall|i: int| 0 <= i < s.len() ==> (#[trigger] s[i]).code != 0
    &&& forall|i: int, j: int| 0 <= i < j < s.len() ==> (#[trigger] s[i]).code != (#[trigger] s[j]).code
    &&& forall|i: int, k: int|
        0 <= i < s.len() && 0 <= k < s[i].attributes.len() ==> !is_null_attribute(
            #[trigger] s[i].attributes[k],
        )
}

proof fn lemma_table_from_round_trip(abbrevs: Seq<AbbrevSpec>, m: Map<u64, AbbrevSpec>, rest: Seq<u8>)
    requires
        writable_abbrevs(abbrevs),
        forall|i: int| 0 <= i < abbrevs.len() ==> !m.contains_key(#[trigger] abbrevs[i].code),
    ensures
        abbrev_table_from(abbrevs_bytes(abbrevs) + seq![0u8] + rest, m) == Ok::<
            (Map<u64, AbbrevSpec>, nat),
            ReadError,
        >((insert_all(m, abbrevs), abbrevs_bytes(abbrevs).len() + 1)),
    decreases abbrevs.len(),
{
    let s = abbrevs_bytes(abbrevs) + seq![0u8] + rest;
    if abbrevs.len() == 0 {
        assert(s =~= uleb_bytes(0) + rest);
        lemma_u64_round_trip(0, rest);
    } else {
        let a = abbrevs[0];
        let tail = abbrevs.drop_first();
        let t = abbrevs_bytes(tail) + seq![0u8] + rest;
        assert(s =~= abbrev_bytes(a) + t);
        assert(a.code != 0);
        assert forall|k: int| 0 <= k < a.attributes.len() implies !is_null_attribute(#[trigger] a.attributes[k]) by {
            assert(!is_null_attribute(abbrevs[0].attributes[k]));
        }
        lemma_abbrev_round_trip(a, t);
        assert(s.skip(abbrev_bytes(a).len() as int) =~= t);
        let m2 = m.insert(a.code, a);
        assert forall|i: int| 0 <= i < tail.len() implies !m2.contains_key(#[trigger] tail[i].code) by {
            assert(tail[i] == abbrevs[i + 1]);
            assert(abbrevs[0].code != abbrevs[i + 1].code);
        }
        assert(writable_abbrevs(tail)) by {
            assert forall|i: int| 0 <= i < tail.len() implies (#[trigger] tail[i]).code != 0 by {
                assert(tail[i] == abbrevs[i + 1]);
            }
            assert forall|i: int, j: int| 0 <= i < j < tail.len() implies (#[trigger] tail[i]).code != (#[trigger] tail[j]).code by {
                assert(tail[i] == abbrevs[i + 1] && tail[j] == abbrevs[j + 1]);
            }
            assert forall|i: int, k: int| 0 <= i < tail.len() && 0 <= k < tail[i].attributes.len() implies !is_null_attribute(#[trigger] tail[i].attributes[k]) by {
                assert(tail[i] == abbrevs[i + 1]);
            }
        }
        lemma_table_from_round_trip(tail, m2, rest);
    }
}

proof fn lemma_insert_all_lookup(m: Map<u64, AbbrevSpec>, s: Seq<AbbrevSpec>)
    requires
        forall|i: int, j: int| 0 <= i < j < s.len() ==> (#[trigger] s[i]).code != (#[trigger] s[j]).code,
    ensures
        forall|i: int| 0 <= i < s.len() ==> insert_all(m, s).contains_key(#[trigger] s[i].code)
            && insert_all(m, s)[s[i].code] == s[i],
        forall|c: u64| #[trigger] insert_all(m, s).contains_key(c) ==> m.contains_key(c) || exists|i: int|
            0 <= i < s.len() && s[i].code == c,
        forall|c: u64| m.contains_key(c) && (forall|i: int| 0 <= i < s.len() ==> s[i].code != c)
            ==> #[trigger] insert_all(m, s).contains_key(c) && insert_all(m, s)[c] == m[c],
    decreases s.len(),
{
    if s.len() > 0 {
        let tail = s.drop_first();
        let m2 = m.insert(s[0].code, s[0]);
        assert forall|i: int, j: int| 0 <= i < j < tail.len() implies (#[trigger] tail[i]).code != (#[trigger] tail[j]).code by {
            assert(tail[i] == s[i + 1] && tail[j] == s[j + 1]);
        }
        lemma_insert_all_lookup(m2, tail);
        assert forall|i: int| 0 <= i < s.len() implies insert_all(m, s).contains_key(#[trigger] s[i].code)
            && insert_all(m, s)[s[i].code] == s[i] by {
            if i > 0 {
                assert(tail[i - 1] == s[i]);
            } else {
                assert forall|j: int| 0 <= j < tail.len() implies tail[j].code != s[0].code by {
                    assert(tail[j] == s[j + 1]);
                }
                assert(m2.contains_key(s[0].code));
                assert(insert_all(m2, tail).contains_key(s[0].code));
            }
        }
        assert forall|c: u64| #[trigger] insert_all(m, s).contains_key(c) implies m.contains_key(c) || exists|i: int|
            0 <= i < s.len() && s[i].code == c by {
            assert(insert_all(m, s) == insert_all(m2, tail));
            assert(insert_all(m2, tail).contains_key(c));
            if !m2.contains_key(c) {
                let j = choose|j: int| 0 <= j < tail.len() && tail[j].code == c;
                assert(tail[j] == s[j + 1]);
                assert(s[j + 1].code == c);
            } else if c == s[0].code {
                assert(s[0].code == c);
            }
        }
        assert forall|c: u64| m.contains_key(c) && (forall|i: int| 0 <= i < s.len() ==> s[i].code != c)
            implies #[trigger] insert_all(m, s).contains_key(c) && insert_all(m, s)[c] == m[c] by {
            assert(s[0].code != c);
            assert forall|i: int| 0 <= i < tail.len() implies tail[i].code != c by {
                assert(tail[i] == s[i + 1]);
            }
            assert(m2.contains_key(c) && m2[c] == m[c]);
            assert(insert_all(m, s) == insert_all(m2, tail));
            assert(insert_all(m2, tail).contains_key(c));
        }
    }
}

/// Writing a list of abbreviations (nonzero distinct codes, no null pair in a
/// schema) and reading it back gives a table that maps each code to its
/// abbreviation and holds no other code; the read takes all the written bytes.
pub proof fn lemma_abbrev_table_round_trip(abbrevs: Seq<AbbrevSpec>)
    requires
        writable_abbrevs(abbrevs),
    ensures
        abbrev_table_decode(abbrev_table_bytes(abbrevs)) matches Ok((m, n)) && n
            == abbrev_table_bytes(abbrevs).len() && (forall|i: int|
            0 <= i < abbrevs.len() ==> m.contains_key(#[trigger] abbrevs[i].code) && m[abbrevs[i].code]
                == abbrevs[i]) && (forall|c: u64| #[trigger] m.contains_key(c) ==> exists|i: int|
            0 <= i < abbrevs.len() && abbrevs[i].code == c),
{
    let e = Map::<u64, AbbrevSpec>::empty();
    assert(abbrev_table_bytes(abbrevs) =~= abbrevs_bytes(abbrevs) + seq![0u8] + Seq::<u8>::empty());
    lemma_table_from_round_trip(abbrevs, e, Seq::empty());
    lemma_insert_all_lookup(e, abbrevs);
}

// ---------------------------------------------------------------------------
// Executable code

impl AbbrevHash {
    pub fn new() -> (r: Self)
        ensures
            r@ == Map::<u64, AbbrevSpec>::empty(),
    {
        let r = AbbrevHash(HashMap::new());
        assert(r@ =~= Map::<u64, AbbrevSpec>::empty());
        r
    }

    pub fn len(&self) -> (r: usize)
        ensures
            r == self@.len(),
    {
        proof {
            assert(self@.dom() =~= self.0@.dom());
        }
        self.0.len()
    }

    pub fn is_empty(&self) -> (r: bool)
        ensures
            r == (self@.len() == 0),
    {
        self.len() == 0
    }

    /// The abbreviations with their codes, in no particular order.
    pub fn iter(&self) -> (r: std::collections::hash_map::Iter<'_, u64, Abbrev>)
        ensures
            r == vstd::std_specs::hash::spec_hash_map_iter(&self.0),
    {
        self.0.iter()
    }

    /// The abbreviation with the given code, if any.
    pub fn get(&self, code: u64) -> (r: Option<&Abbrev>)
        ensures
            match r {
                Some(a) => self@.contains_key(code) && a@ == self@[code],
                None => !self@.contains_key(code),
            },
    {
        self.0.get(&code)
    }

    /// Adds an abbreviation under its code; returns the one it replaces.
    pub fn insert(&mut self, abbrev: Abbrev) -> (r: Option<Abbrev>)
        ensures
            final(self)@ == old(self)@.insert(abbrev.code, abbrev@),
            match r {
                Some(a) => old(self)@.contains_key(abbrev.code) && a@ == old(self)@[abbrev.code],
                None => !old(self)@.contains_key(abbrev.code),
            },
    {
        let ghost a = abbrev;
        let r = self.0.insert(abbrev.code, abbrev);
        assert(self@ =~= old(self)@.insert(a.code, a@));
        r
    }

    /// Reads abbreviations up to and including the zero code; a code read
    /// twice is `Invalid`.
    pub fn read(r: &mut &[u8]) -> (res: Result<AbbrevHash, ReadError>)
        ensures
            match abbrev_table_decode(old(r)@) {
                Ok((m, n)) => res is Ok && res->Ok_0@ == m && final(r)@ == old(r)@.skip(n as int),
                Err(e) => res == Err::<AbbrevHash, ReadError>(e),
            },
    {
        let ghost s0 = r@;
        let mut abbrev_hash = AbbrevHash::new();
        loop
            invariant
                s0 == old(r)@,
                s0.len() >= r@.len(),
                r@ == s0.skip(s0.len() - r@.len()),
                abbrev_table_decode(s0) == table_shift(
                    (s0.len() - r@.len()) as nat,
                    abbrev_table_from(r@, abbrev_hash@),
                ),
            decreases r@.len(),
        {
            let ghost before = r@;
            let ghost m = abbrev_hash@;
            proof {
                lemma_abbrev_len(before);
            }
            let next = Abbrev::read(r);
            match next {
                Ok(Some(abbrev)) => {
                    let ghost a = abbrev@;
                    let ghost n = abbrev_decode(before)->Ok_0.1;
                    if abbrev_hash.insert(abbrev).is_some() {
                        assert(abbrev_table_from(before, m) == Err::<(Map<u64, AbbrevSpec>, nat), ReadError>(ReadError::Invalid));
                        return Err(ReadError::Invalid);
                    }
                    proof {
                        assert(abbrev_table_from(before, m) == table_shift(
                            n,
                            abbrev_table_from(before.skip(n as int), m.insert(a.code, a)),
                        ));
                        assert(r@ =~= s0.skip(s0.len() - r@.len()));
                    }
                },
                Ok(None) => {
                    let ghost n = abbrev_decode(before)->Ok_0.1;
                    assert(abbrev_table_from(before, m) == Ok::<(Map<u64, AbbrevSpec>, nat), ReadError>((m, n)));
                    assert(r@ =~= s0.skip(s0.len() - r@.len()));
                    return Ok(abbrev_hash);
                },
                Err(e) => {
                    assert(abbrev_decode(before) == Err::<(Option<AbbrevSpec>, nat), ReadError>(e));
                    assert(abbrev_table_from(before, m) == Err::<(Map<u64, AbbrevSpec>, nat), ReadError>(e));
                    return Err(e);
                },
            }
        }
    }
}
impl AbbrevVec {
    pub fn new(val: Vec<Abbrev>) -> (r: Self)
        ensures
            r.0@ == val@,
    {
        AbbrevVec(val)
    }

    pub fn len(&self) -> (r: usize)
        ensures
            r == self@.len(),
    {
        self.0.len()
    }

    pub fn is_empty(&self) -> (r: bool)
        ensures
            r == (self@.len() == 0),
    {
        self.0.len() == 0
    }

    /// The abbreviations in order.
    pub fn iter(&self) -> (r: std::slice::Iter<'_, Abbrev>)
        ensures
            r.remaining() == self.0@.as_ref(),
    {
        self.0.as_slice().iter()
    }

    /// Writes the abbreviations in order, then the zero code.
    pub fn write(&self, w: &mut Vec<u8>)
        ensures
            final(w)@ == old(w)@ + abbrev_table_bytes(self@),
    {
        let mut i: usize = 0;
        assert(self@.skip(0) =~= self@);
        while i < self.0.len()
            invariant
                i <= self@.len(),
                self@.len() == self.0@.len(),
                w@ + abbrevs_bytes(self@.skip(i as int)) == old(w)@ + abbrevs_bytes(self@),
            decreases self.0.len() - i,
        {
            let ghost w0 = w@;
            self.0[i].write(w);
            proof {
                let rest = self@.skip(i as int);
                assert(rest.drop_first() =~= self@.skip(i + 1));
                assert(rest[0] == self.0@[i as int]@);
                assert(w0 + abbrevs_bytes(rest) =~= w@ + abbrevs_bytes(self@.skip(i + 1)));
            }
            i = i + 1;
        }
        let ghost w1 = w@;
        Abbrev::write_null(w);
        assert(self@.skip(i as int) =~= Seq::<AbbrevSpec>::empty());
        assert(w@ =~= old(w)@ + abbrev_table_bytes(self@));
    }
}

impl Abbrev {
    /// Reads one abbreviation; `None` for the zero code that ends a table.
    pub fn read(r: &mut &[u8]) -> (res: Result<Option<Abbrev>, ReadError>)
        ensures
            match abbrev_decode(old(r)@) {
                Ok((a, n)) => res is Ok && final(r)@ == old(r)@.skip(n as int) && match a {
                    None => res->Ok_0 is None,
                    Some(a) => res->Ok_0 is Some && res->Ok_0->Some_0@ == a,
                },
                Err(e) => res == Err::<Option<Abbrev>, ReadError>(e),
            },
    {
        let ghost s0 = r@;
        proof {
            lemma_uleb_len(s0, 0);
        }
        let code = leb128::read_u64(r)?;
        if code == 0 {
            return Ok(None);
        }
        let ghost s1 = r@;
        let ghost n1 = uleb_decode(s0)->Ok_0.1;
        proof {
            lemma_uleb16_len(s1);
        }
        let tag = leb128::read_u16(r)?;
        let ghost s2 = r@;
        let ghost n2 = uleb16_decode(s1)->Ok_0.1;
        assert(s2 =~= s0.skip((n1 + n2) as int));
        let byte = read_u8(r)?;
        let children = if byte == DW_CHILDREN_no {
            false
        } else if byte == DW_CHILDREN_yes {
            true
        } else {
            return Err(ReadError::Invalid);
        };
        let ghost s3 = r@;
        assert(s3 =~= s0.skip((n1 + n2 + 1) as int));
        let mut attributes: Vec<AbbrevAttribute> = Vec::new();
        loop
            invariant_except_break
                attributes_decode(s3) == attributes_shift(
                    attributes@,
                    (s3.len() - r@.len()) as nat,
                    attributes_decode(r@),
                ),
            invariant
                s0 == old(r)@,
                s3.len() >= r@.len(),
                r@ == s3.skip(s3.len() - r@.len()),
                s3 == s0.skip((n1 + n2 + 1) as int),
                abbrev_decode(s0) == match attributes_decode(s3) {
                    Ok((attrs, n3)) => Ok::<(Option<AbbrevSpec>, nat), ReadError>(
                        (Some(AbbrevSpec { code, tag, children, attributes: attrs }), n1 + n2 + 1 + n3),
                    ),
                    Err(e) => Err(e),
                },
            ensures
                attributes_decode(s3) == Ok::<(Seq<AbbrevAttribute>, nat), ReadError>(
                    (attributes@, (s3.len() - r@.len()) as nat),
                ),
            decreases r@.len(),
        {
            let ghost before = r@;
            let ghost acc = attributes@;
            proof {
                lemma_attribute_len(before);
            }
            let next = AbbrevAttribute::read(r);
            match next {
                Ok(Some(attribute)) => {
                    attributes.push(attribute);
                    proof {
                        assert(r@ =~= s3.skip(s3.len() - r@.len()));
                        let n = attribute_decode(before)->Ok_0.1;
                        assert(r@ == before.skip(n as int));
                        if let Ok((t, k)) = attributes_decode(r@) {
                            assert(acc + (seq![attribute] + t) =~= attributes@ + t);
                        }
                    }
                },
                Ok(None) => {
                    assert(attributes@ + seq![] =~= attributes@);
                    assert(r@ =~= s3.skip(s3.len() - r@.len()));
                    break;
                },
                Err(e) => {
                    assert(attributes_decode(s3) == Err::<(Seq<AbbrevAttribute>, nat), ReadError>(e));
                    return Err(e);
                },
            }
        }
        assert(r@ =~= s0.skip(s0.len() - r@.len()));
        Ok(Some(Abbrev { code, tag, children, attributes }))
    }
    /// Writes the zero code that ends a table.
    pub fn write_null(w: &mut Vec<u8>)
        ensures
            final(w)@ == old(w)@ + seq![0u8],
    {
        leb128::write_u64(w, 0);
        assert(uleb_bytes(0) =~= seq![0u8]);
    }

    pub fn write(&self, w: &mut Vec<u8>)
        ensures
            final(w)@ == old(w)@ + abbrev_bytes(self@),
    {
        let ghost w0 = w@;
        leb128::write_u64(w, self.code);
        // A zero code ends a table; nothing of the schema follows it.
        if self.code == 0 {
            return;
        }
        leb128::write_u16(w, self.tag);
        let children = if self.children {
            DW_CHILDREN_yes
        } else {
            DW_CHILDREN_no
        };
        write_u8(w, children);
        let ghost w1 = w@;
        let mut i: usize = 0;
        assert(self.attributes@.skip(0) =~= self.attributes@);
        while i < self.attributes.len()
            invariant
                i <= self.attributes@.len(),
                w@ + attributes_bytes(self.attributes@.skip(i as int)) == w1 + attributes_bytes(
                    self.attributes@,
                ),
            decreases self.attributes.len() - i,
        {
            let ghost wi = w@;
            self.attributes[i].write(w);
            proof {
                let rest = self.attributes@.skip(i as int);
                assert(rest.drop_first() =~= self.attributes@.skip(i + 1));
                assert(wi + attributes_bytes(rest) =~= w@ + attributes_bytes(self.attributes@.skip(i + 1)));
            }
            i = i + 1;
        }
        AbbrevAttribute::write_null(w);
        assert(self.attributes@.skip(i as int) =~= Seq::<AbbrevAttribute>::empty());
        assert(w@ =~= w0 + abbrev_bytes(self@));
    }
}

impl AbbrevAttribute {
    pub fn null() -> (r: Self)
        ensures
            is_null_attribute(r),
    {
        AbbrevAttribute { at: 0, form: 0 }
    }

    pub fn is_null(&self) -> (r: bool)
        ensures
            r == is_null_attribute(*self),
    {
        self.at == 0 && self.form == 0
    }

    /// Reads one attribute specification; `None` for the null pair that ends
    /// a schema.
    pub fn read(r: &mut &[u8]) -> (res: Result<Option<AbbrevAttribute>, ReadError>)
        ensures
            match attribute_decode(old(r)@) {
                Ok((a, n)) => res == Ok::<Option<AbbrevAttribute>, ReadError>(a) && final(r)@
                    == old(r)@.skip(n as int),
                Err(e) => res == Err::<Option<AbbrevAttribute>, ReadError>(e),
            },
    {
        let ghost s0 = r@;
        let at = leb128::read_u16(r)?;
        let ghost s1 = r@;
        let form = leb128::read_u16(r)?;
        let attribute = AbbrevAttribute { at, form };
        proof {
            let n1 = uleb16_decode(s0)->Ok_0.1;
            lemma_uleb16_len(s0);
            lemma_uleb16_len(s1);
            assert(s1 =~= s0.skip(n1 as int));
            let n2 = uleb16_decode(s1)->Ok_0.1;
            assert(r@ =~= s0.skip((n1 + n2) as int));
        }
        if attribute.is_null() {
            Ok(None)
        } else {
            Ok(Some(attribute))
        }
    }

    /// Writes the null pair that ends a schema.
    pub fn write_null(w: &mut Vec<u8>)
        ensures
            final(w)@ == old(w)@ + seq![0u8, 0u8],
    {
        Self::null().write(w);
        assert(uleb_bytes(0) =~= seq![0u8]);
        assert(seq![0u8] + seq![0u8] =~= seq![0u8, 0u8]);
        assert(final(w)@ =~= old(w)@ + seq![0u8, 0u8]);
    }

    pub fn write(&self, w: &mut Vec<u8>)
        ensures
            final(w)@ == old(w)@ + attribute_bytes(*self),
    {
        let ghost w0 = w@;
        leb128::write_u16(w, self.at);
        leb128::write_u16(w, self.form);
        assert(w@ =~= w0 + attribute_bytes(*self));
    }
}

} // verus!
