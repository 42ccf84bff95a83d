use std::collections::BTreeMap;
use vstd::prelude::*;

use crate::cmap::{cmap_of, parse_unicode_map};
use crate::content::Operation;
use crate::error::ExtractError;

verus! {

broadcast use vstd::std_specs::btree::group_btree_axioms, vstd::laws_cmp::group_laws_cmp;

/// The text that lopdf's legacy decoding gives for `bytes` under the named encoding.
pub uninterp spec fn legacy_text(encoding: Seq<char>, bytes: Seq<u8>) -> Seq<char>;

/// Relies on `lopdf::Document::decode_text`: decoding under a named encoding
/// depends on the encoding name and the bytes alone.
#[verifier::external_body]
fn legacy_decode(encoding: &String, bytes: &[u8]) -> (r: String)
    ensures
        r@ == legacy_text(encoding@, bytes@),
{
    lopdf::Document::decode_text(Some(encoding.as_str()), bytes)
}

/// A Unicode scalar value: at most 0x10FFFF and not a surrogate.
pub open spec fn is_scalar(v: u32) -> bool {
    v <= 0x10FFFF && !(0xD800 <= v && v <= 0xDFFF)
}

/// Relies on `char::from_u32`: `Some` exactly for Unicode scalar values.
#[verifier::external_body]
fn char_from_scalar(v: u32) -> (r: Option<char>)
    ensures
        is_scalar(v) ==> r == Some(v as char),
        !is_scalar(v) ==> r is None,
{
    char::from_u32(v)
}

/// Relies on `String::push`: appends one character.
#[verifier::external_body]
fn push_char(s: &mut String, c: char)
    ensures
        final(s)@ == old(s)@.push(c),
{
    s.push(c)
}

/// The big-endian 16-bit code at position `i` of `bytes`, read two bytes at a time.
pub open spec fn code_at(bytes: Seq<u8>, i: int) -> u32 {
    (bytes[2 * i] * 256 + bytes[2 * i + 1]) as u32
}

/// The table's value for `code`, or the code itself where the table has none.
pub open spec fn mapped_code(table: Map<u32, u32>, code: u32) -> u32 {
    if table.contains_key(code) {
        table[code]
    } else {
        code
    }
}

/// The scalar values that `bytes` decode to under a code table.
pub open spec fn table_scalars(table: Map<u32, u32>, bytes: Seq<u8>) -> Seq<u32> {
    Seq::new((bytes.len() / 2) as nat, |i: int| mapped_code(table, code_at(bytes, i)))
}

/// Decoding under a code table: the bytes must pair up, and each mapped
/// code must be a Unicode scalar value.
pub open spec fn table_decoded(table: Map<u32, u32>, bytes: Seq<u8>) -> Result<Seq<char>, ExtractError> {
    let s = table_scalars(table, bytes);
    if bytes.len() % 2 != 0 {
        Err(ExtractError::MalformedText)
    } else if exists|i: int| 0 <= i < s.len() && !is_scalar(#[trigger] s[i]) {
        Err(ExtractError::MalformedText)
    } else {
        Ok(Seq::new(s.len(), |i: int| s[i] as char))
    }
}

/// A font: a named legacy encoding, and possibly an embedded code table
/// that takes precedence over it.
#[derive(Debug)]
pub struct Font {
    pub encoding: String,
    pub unicode_map: Option<BTreeMap<u32, u32>>,
}

/// What decoding `bytes` with `font` gives.
pub open spec fn font_decoded(font: Font, bytes: Seq<u8>) -> Result<Seq<char>, ExtractError> {
    match font.unicode_map {
        Some(t) => table_decoded(t@, bytes),
        None => Ok(legacy_text(font.encoding@, bytes)),
    }
}

/// Under a code table, each decoded character is the table's value for its
/// code where the table holds the code, and the code itself otherwise.
pub proof fn lemma_decode_per_code(font: Font, bytes: Seq<u8>, i: int)
    requires
        font.unicode_map is Some,
        font_decoded(font, bytes) is Ok,
        0 <= i < bytes.len() / 2,
    ensures
        ({
            let s = font_decoded(font, bytes)->Ok_0;
            let t = table_of(font)->Some_0;
            let code = code_at(bytes, i);
            &&& s.len() == bytes.len() / 2
            &&& t.contains_key(code) ==> s[i] == t[code] as char
            &&& !t.contains_key(code) ==> s[i] == code as char
        }),
{
}

/// A single code decodes under a code table to the table's value for it, or
/// to the code itself where the table does not hold it, whenever that value
/// is a Unicode scalar value.
pub proof fn lemma_decode_one_code(font: Font, hi: u8, lo: u8)
    requires
        font.unicode_map is Some,
        is_scalar(mapped_code(table_of(font)->Some_0, (hi * 256 + lo) as u32)),
    ensures
        ({
            let t = table_of(font)->Some_0;
            let code = (hi * 256 + lo) as u32;
            &&& t.contains_key(code) ==> font_decoded(font, seq![hi, lo]) == Ok::<
                Seq<char>,
                ExtractError,
            >(seq![t[code] as char])
            &&& !t.contains_key(code) ==> font_decoded(font, seq![hi, lo]) == Ok::<
                Seq<char>,
                ExtractError,
            >(seq![code as char])
        }),
{
    let t = table_of(font)->Some_0;
    let b = seq![hi, lo];
    let sc = table_scalars(t, b);
    assert(code_at(b, 0) == (hi * 256 + lo) as u32);
    assert(sc.len() == 1);
    assert(Seq::new(sc.len(), |i: int| sc[i] as char) =~= seq![sc[0] as char]);
}

/// Where a font's embedded code table stands.
#[derive(Debug)]
pub enum UnicodeTable {
    /// The font declares no table.
    Absent,
    /// The font declares a table that does not resolve to a stream.
    Unresolved,
    /// The decoded instructions of the table's stream.
    Present(Vec<Operation>),
}

/// The code table of a font, if it has one.
pub open spec fn table_of(f: Font) -> Option<Map<u32, u32>> {
    match f.unicode_map {
        Some(t) => Some(t@),
        None => None,
    }
}

/// The code table that a font declaration resolves to.
pub open spec fn resolved_table(table: UnicodeTable) -> Result<Option<Map<u32, u32>>, ExtractError> {
    match table {
        UnicodeTable::Absent => Ok(None),
        UnicodeTable::Unresolved => Err(ExtractError::UnresolvableReference),
        UnicodeTable::Present(ops) => match cmap_of(ops@) {
            Some(m) => Ok(Some(m)),
            None => Err(ExtractError::MalformedFont),
        },
    }
}

impl Font {
    /// A font that decodes through the named legacy encoding.
    pub fn with_encoding(encoding: String) -> (r: Font)
        ensures
            r.encoding@ == encoding@,
            r.unicode_map is None,
    {
        Font { encoding, unicode_map: None }
    }

    /// A font with a code table.
    pub fn with_table(encoding: String, table: BTreeMap<u32, u32>) -> (r: Font)
        ensures
            r.encoding@ == encoding@,
            table_of(r) == Some(table@),
    {
        Font { encoding, unicode_map: Some(table) }
    }

    /// Builds a font from its declared encoding and its embedded code table.
    pub fn resolve(encoding: String, table: UnicodeTable) -> (r: Result<Font, ExtractError>)
        ensures
            match r {
                Ok(f) => f.encoding@ == encoding@ && resolved_table(table) == Ok::<
                    Option<Map<u32, u32>>,
                    ExtractError,
                >(table_of(f)),
                Err(e) => resolved_table(table) == Err::<Option<Map<u32, u32>>, ExtractError>(e),
            },
    {
        match table {
            UnicodeTable::Absent => Ok(Font { encoding, unicode_map: None }),
            UnicodeTable::Unresolved => Err(ExtractError::UnresolvableReference),
            UnicodeTable::Present(ops) => match parse_unicode_map(&ops) {
                Ok(m) => Ok(Font { encoding, unicode_map: Some(m) }),
                Err(e) => Err(e),
            },
        }
    }

    /// Decodes the bytes of a shown string. With a code table the bytes are
    /// big-endian 16-bit codes, each looked up in the table and taken as its
    /// own scalar value where the table has none; otherwise the legacy
    /// encoding decodes them.
    pub fn decode(&self, text: &[u8]) -> (r: Result<String, ExtractError>)
        ensures
            match r {
                Ok(s) => font_decoded(*self, text@) == Ok::<Seq<char>, ExtractError>(s@),
                Err(e) => font_decoded(*self, text@) == Err::<Seq<char>, ExtractError>(e),
            },
    {
        match &self.unicode_map {
            Some(table) => {
                let ghost scalars = table_scalars(table@, text@);
                let n = text.len();
                if n % 2 != 0 {
                    return Err(ExtractError::MalformedText);
                }
                let mut result = String::new();
                let mut i: usize = 0;
                while i < n / 2
                    invariant
                        n == text@.len(),
                        n % 2 == 0,
                        scalars == table_scalars(table@, text@),
                        font_decoded(*self, text@) == table_decoded(table@, text@),
                        0 <= i <= n / 2,
                        forall|k: int| 0 <= k < i ==> is_scalar(#[trigger] scalars[k]),
                        result@ =~= Seq::new(i as nat, |k: int| scalars[k] as char),
                    decreases n / 2 - i,
                {
                    let code: u32 = (text[2 * i] as u32) * 256 + (text[2 * i + 1] as u32);
                    let mapped: u32 = match table.get(&code) {
                        Some(v) => *v,
                        None => code,
                    };
                    assert(mapped == scalars[i as int]);
                    match char_from_scalar(mapped) {
                        Some(c) => push_char(&mut result, c),
                        None => {
                            assert(!is_scalar(scalars[i as int]));
                            return Err(ExtractError::MalformedText);
                        },
                    }
                    i = i + 1;
                }
                Ok(result)
            },
            None => Ok(legacy_decode(&self.encoding, text)),
        }
    }
}

} // verus!

verus! {

/// A font resolved under its identifier.
#[derive(Debug)]
pub struct FontEntry {
    pub id: Vec<u8>,
    pub font: Font,
}

/// The fonts of a document, each under a distinct identifier.
#[derive(Debug)]
pub struct FontCache {
    entries: Vec<FontEntry>,
}

/// The font stored under `id`, if any.
pub open spec fn font_in(entries: Seq<FontEntry>, id: Seq<u8>) -> Option<Font>
    decreases entries.len(),
{
    if entries.len() == 0 {
        None
    } else if entries[0].id@ == id {
        Some(entries[0].font)
    } else {
        font_in(entries.drop_first(), id)
    }
}

proof fn lemma_font_in_push(entries: Seq<FontEntry>, e: FontEntry, id: Seq<u8>)
    ensures
        font_in(entries.push(e), id) == if font_in(entries, id) is Some {
            font_in(entries, id)
        } else if e.id@ == id {
            Some(e.font)
        } else {
            None
        },
    decreases entries.len(),
{
    if entries.len() > 0 {
        assert(entries.push(e)[0] == entries[0]);
        assert(entries.push(e).drop_first() =~= entries.drop_first().push(e));
        lemma_font_in_push(entries.drop_first(), e, id);
    } else {
        assert(entries.push(e).drop_first() =~= Seq::<FontEntry>::empty());
        assert(font_in(Seq::<FontEntry>::empty(), id) is None);
        assert(entries.push(e)[0] == e);
    }
}

fn bytes_equal(a: &Vec<u8>, b: &Vec<u8>) -> (r: bool)
    ensures
        r == (a@ == b@),
{
    if a.len() != b.len() {
        return false;
    }
    let mut i: usize = 0;
    while i < a.len()
        invariant
            a@.len() == b@.len(),
            0 <= i <= a@.len(),
            forall|j: int| 0 <= j < i ==> a@[j] == b@[j],
        decreases a@.len() - i,
    {
        if a[i] != b[i] {
            return false;
        }
        i = i + 1;
    }
    assert(a@ =~= b@);
    true
}

impl FontCache {
    /// The identifiers are distinct.
    pub closed spec fn wf(&self) -> bool {
        forall|i: int, j: int|
            0 <= i < j < self.entries@.len() ==> #[trigger] self.entries@[i].id@
                != #[trigger] self.entries@[j].id@
    }

    /// The font stored under `id`, if any.
    pub closed spec fn font(&self, id: Seq<u8>) -> Option<Font> {
        font_in(self.entries@, id)
    }

    pub fn new() -> (r: FontCache)
        ensures
            r.wf(),
            forall|id: Seq<u8>| r.font(id) is None,
    {
        FontCache { entries: Vec::new() }
    }

    fn position(&self, id: &Vec<u8>) -> (r: Option<usize>)
        ensures
            match r {
                Some(i) => i < self.entries@.len() && self.font(id@) == Some(self.entries@[i as int].font),
                None => self.font(id@) is None,
            },
    {
        let n = self.entries.len();
        let mut i: usize = 0;
        assert(self.entries@.subrange(0, n as int) =~= self.entries@);
        while i < n
            invariant
                n == self.entries@.len(),
                0 <= i <= n,
                self.font(id@) == font_in(self.entries@.subrange(i as int, n as int), id@),
            decreases n - i,
        {
            let ghost rest = self.entries@.subrange(i as int, n as int);
            assert(rest.drop_first() =~= self.entries@.subrange(i as int + 1, n as int));
            if bytes_equal(&self.entries[i].id, id) {
                return Some(i);
            }
            i = i + 1;
        }
        None
    }

    /// Whether a font is stored under `id`.
    pub fn contains(&self, id: &Vec<u8>) -> (r: bool)
        ensures
            r == self.font(id@) is Some,
    {
        self.position(id).is_some()
    }

    /// The font stored under `id`, if any.
    pub fn get(&self, id: &Vec<u8>) -> (r: Option<&Font>)
        ensures
            match r {
                Some(f) => self.font(id@) == Some(*f),
                None => self.font(id@) is None,
            },
    {
        match self.position(id) {
            Some(i) => Some(&self.entries[i].font),
            None => None,
        }
    }

    /// Stores `font` under `id` unless a font is stored there already; the
    /// first font resolved under an identifier is kept.
    pub fn insert(&mut self, id: Vec<u8>, font: Font)
        requires
            old(self).wf(),
        ensures
            final(self).wf(),
            forall|k: Seq<u8>| #[trigger] final(self).font(k) == if k == id@ && old(self).font(k) is None {
                Some(font)
            } else {
                old(self).font(k)
            },
    {
        if self.contains(&id) {
            return;
        }
        let ghost before = self.entries@;
        let ghost new_id = id@;
        proof {
            assert forall|i: int| 0 <= i < before.len() implies before[i].id@ != new_id by {
                lemma_font_in_distinct(before, i);
            }
        }
        let ghost e = FontEntry { id, font };
        self.entries.push(FontEntry { id, font });
        proof {
            assert forall|k: Seq<u8>| #[trigger] self.font(k) == if k == new_id && font_in(before, k) is None {
                Some(e.font)
            } else {
                font_in(before, k)
            } by {
                lemma_font_in_push(before, self.entries@.last(), k);
            }
        }
    }
}

proof fn lemma_font_in_distinct(entries: Seq<FontEntry>, i: int)
    requires
        0 <= i < entries.len(),
    ensures
        font_in(entries, entries[i].id@) is Some,
    decreases entries.len(),
{
    if i > 0 && entries[0].id@ != entries[i].id@ {
        assert(entries.drop_first()[i - 1] == entries[i]);
        lemma_font_in_distinct(entries.drop_first(), i - 1);
    }
}

} // verus!
