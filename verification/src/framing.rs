//! How the metadata of a commit lies in its encoding.
//!
//! The metadata is a list of entries, each a name and a value that says of
//! itself what type it has. The library keeps such a value as the bytes
//! that stand for it: its framed content, a zero byte, and its type
//! signature. So a value of any type is kept, and written again as it was
//! read, without the codec looking into it. The codec frames each entry as
//! a name and a byte string, and the list as a list of byte strings; what
//! is left to this module is the padding that brings an entry, and the
//! value within it, to a boundary of eight bytes.

use crate::codec::decode_entry;
use crate::codec::encode_entry;
use crate::codec::gvariant_entry;
use crate::codec::gvariant_entry_parsed;
use crate::error::RepoError;
use crate::error::RepoErrorKind;
use vstd::prelude::*;
use vstd::slice::slice_subrange;
use vstd::utf8::encode_utf8;

verus! {

/// The boundary to which an entry, and the value in it, is aligned.
pub const ENTRY_ALIGNMENT: usize = 8;

/// The number of bytes from `pos` to the next boundary.
pub open spec fn padding_at(pos: int) -> int {
    (ENTRY_ALIGNMENT - pos % (ENTRY_ALIGNMENT as int)) % (ENTRY_ALIGNMENT as int)
}

/// `n` zero bytes.
pub open spec fn zeros(n: int) -> Seq<u8> {
    Seq::new(n as nat, |i: int| 0u8)
}

/// `bytes` behind the padding that brings them from `pos` to a boundary.
pub open spec fn padded(pos: int, bytes: Seq<u8>) -> Seq<u8> {
    zeros(padding_at(pos)) + bytes
}

/// What stands behind the padding in `bytes`, which begin at `pos`; there
/// is no such thing where the padding is missing or not zero.
pub open spec fn unpadded(pos: int, bytes: Seq<u8>) -> Option<Seq<u8>> {
    let pad = padding_at(pos);
    if pad <= bytes.len() && bytes.subrange(0, pad) == zeros(pad) {
        Some(bytes.subrange(pad, bytes.len() as int))
    } else {
        None
    }
}

/// Taking the padding off what was padded gives it back.
pub proof fn lemma_unpadded_padded(pos: int, bytes: Seq<u8>)
    ensures
        unpadded(pos, padded(pos, bytes)) == Some(bytes),
{
    let pad = padding_at(pos);
    let whole = padded(pos, bytes);
    assert(whole.subrange(0, pad) =~= zeros(pad));
    assert(whole.subrange(pad, whole.len() as int) =~= bytes);
}

/// The number of bytes from `at` to the next boundary. Only what `at`
/// leaves when divided by eight counts.
pub fn padding_of(at: usize) -> (pad: usize)
    ensures
        pad == padding_at(at as int),
        pad < ENTRY_ALIGNMENT,
{
    (ENTRY_ALIGNMENT - at % ENTRY_ALIGNMENT) % ENTRY_ALIGNMENT
}

/// `bytes` behind the padding that brings them from `at` to a boundary.
pub fn pad(at: usize, bytes: &[u8]) -> (r: Vec<u8>)
    ensures
        r@ == padded(at as int, bytes@),
{
    let gap = padding_of(at);
    let mut r: Vec<u8> = Vec::new();
    let mut i: usize = 0;
    while i < gap
        invariant
            i <= gap,
            r@ == zeros(i as int),
        decreases gap - i,
    {
        r.push(0);
        proof {
            assert(r@ =~= zeros(i + 1));
        }
        i += 1;
    }
    let mut k: usize = 0;
    while k < bytes.len()
        invariant
            k <= bytes@.len(),
            r@ == zeros(gap as int) + bytes@.take(k as int),
        decreases bytes@.len() - k,
    {
        r.push(bytes[k]);
        proof {
            assert(bytes@.take(k + 1) =~= bytes@.take(k as int).push(bytes@[k as int]));
            assert(r@ =~= zeros(gap as int) + bytes@.take(k + 1));
        }
        k += 1;
    }
    proof {
        assert(bytes@.take(k as int) =~= bytes@);
    }
    r
}

/// What stands behind the padding in `bytes`, which begin at `at`.
pub fn unpad(at: usize, bytes: &[u8]) -> (r: Option<&[u8]>)
    ensures
        match r {
            Some(rest) => unpadded(at as int, bytes@) == Some(rest@),
            None => unpadded(at as int, bytes@) is None,
        },
{
    let gap = padding_of(at);
    if gap > bytes.len() {
        return None;
    }
    let mut i: usize = 0;
    while i < gap
        invariant
            i <= gap <= bytes@.len(),
            gap == padding_at(at as int),
            forall|j: int| 0 <= j < i ==> bytes@[j] == 0,
        decreases gap - i,
    {
        if bytes[i] != 0 {
            proof {
                let head = bytes@.subrange(0, gap as int);
                assert(head[i as int] == bytes@[i as int]);
                assert(zeros(gap as int)[i as int] == 0);
                assert(head != zeros(gap as int));
            }
            return None;
        }
        i += 1;
    }
    proof {
        assert(bytes@.subrange(0, gap as int) =~= zeros(gap as int));
    }
    Some(slice_subrange(bytes, gap, bytes.len()))
}

/// Why the elements of a commit's metadata are not entries.
#[derive(Debug, Clone, Copy, PartialEq, Eq, Structural)]
pub enum Unframed {
    /// An element or a value does not begin behind zero bytes up to a
    /// boundary.
    Padding,
    /// The codec refuses an element as a name and a byte string.
    Codec,
}

/// The names and values of a list of entries as they are held.
pub open spec fn entries_view(entries: Seq<(String, Vec<u8>)>) -> Seq<(Seq<char>, Seq<u8>)> {
    Seq::new(entries.len(), |i: int| (entries[i].0@, entries[i].1@))
}

/// Where the value of an entry with this name stands, counted from the
/// beginning of the entry and before it is brought to a boundary: behind
/// the bytes of the name and the zero byte that ends them.
pub open spec fn value_start(name: Seq<char>) -> int {
    (encode_utf8(name).len() + 1) as int
}

/// The encoding of an entry: its name, then its value at the next
/// boundary, framed by the codec; there is none where the codec refuses
/// the name.
pub open spec fn entry_of(name: Seq<char>, value: Seq<u8>) -> Option<Seq<u8>> {
    gvariant_entry(name, padded(value_start(name), value))
}

/// The name and the value that an encoded entry holds.
pub open spec fn entry_parsed(entry: Seq<u8>) -> Result<(Seq<char>, Seq<u8>), Unframed> {
    match gvariant_entry_parsed(entry) {
        None => Err(Unframed::Codec),
        Some((name, rest)) => match unpadded(value_start(name), rest) {
            Some(value) => Ok((name, value)),
            None => Err(Unframed::Padding),
        },
    }
}

/// The byte strings that a list holds.
pub open spec fn byte_strings(list: Seq<Vec<u8>>) -> Seq<Seq<u8>> {
    Seq::new(list.len(), |i: int| list[i]@)
}

/// Where the element at position `n` begins: behind the `n` before it.
pub open spec fn position(elements: Seq<Seq<u8>>, n: int) -> int
    decreases n,
{
    if 0 < n <= elements.len() {
        position(elements, n - 1) + elements[n - 1].len()
    } else {
        0
    }
}

/// The element that an entry makes where it begins at `pos`: the entry
/// encoded and brought to a boundary.
pub open spec fn element_of(name: Seq<char>, value: Seq<u8>, pos: int) -> Option<Seq<u8>> {
    match entry_of(name, value) {
        Some(entry) => Some(padded(pos, entry)),
        None => None,
    }
}

/// The entry that an element holds where it begins at `pos`.
pub open spec fn element_parsed(element: Seq<u8>, pos: int) -> Result<
    (Seq<char>, Seq<u8>),
    Unframed,
> {
    match unpadded(pos, element) {
        None => Err(Unframed::Padding),
        Some(entry) => entry_parsed(entry),
    }
}

/// The elements that the first `n` entries make, one behind the other.
/// There are none where the codec refuses a name.
pub open spec fn elements_of(entries: Seq<(Seq<char>, Seq<u8>)>, n: int) -> Option<Seq<Seq<u8>>>
    decreases n,
{
    if 0 < n <= entries.len() {
        match elements_of(entries, n - 1) {
            Some(before) => match element_of(
                entries[n - 1].0,
                entries[n - 1].1,
                position(before, before.len() as int),
            ) {
                Some(element) => Some(before.push(element)),
                None => None,
            },
            None => None,
        }
    } else {
        Some(Seq::empty())
    }
}

/// The entries that the first `n` elements hold. The first element that
/// is no entry ends it.
pub open spec fn elements_parsed(elements: Seq<Seq<u8>>, n: int) -> Result<
    Seq<(Seq<char>, Seq<u8>)>,
    Unframed,
>
    decreases n,
{
    if 0 < n <= elements.len() {
        match elements_parsed(elements, n - 1) {
            Err(e) => Err(e),
            Ok(before) => match element_parsed(elements[n - 1], position(elements, n - 1)) {
                Err(e) => Err(e),
                Ok(found) => Ok(before.push(found)),
            },
        }
    } else {
        Ok(Seq::empty())
    }
}

/// One more element leaves the positions of those before it as they are.
pub proof fn lemma_position_prefix(elements: Seq<Seq<u8>>, element: Seq<u8>, n: int)
    requires
        0 <= n <= elements.len(),
    ensures
        position(elements.push(element), n) == position(elements, n),
    decreases n,
{
    if n > 0 {
        lemma_position_prefix(elements, element, n - 1);
        assert(elements.push(element)[n - 1] == elements[n - 1]);
    }
}

/// The position behind one more element.
pub proof fn lemma_position_push(elements: Seq<Seq<u8>>, element: Seq<u8>)
    ensures
        position(elements.push(element), (elements.len() + 1) as int) == position(
            elements,
            elements.len() as int,
        ) + element.len(),
{
    lemma_position_prefix(elements, element, elements.len() as int);
    assert(elements.push(element)[elements.len() as int] == element);
}

/// The padding depends only on what a position leaves when divided by
/// eight.
pub proof fn lemma_padding_mod(a: int, b: int)
    requires
        a % (ENTRY_ALIGNMENT as int) == b % (ENTRY_ALIGNMENT as int),
    ensures
        padding_at(a) == padding_at(b),
{
}

/// What `at` becomes behind `len` more bytes, as far as padding goes.
fn advance(at: usize, len: usize, Ghost(pos): Ghost<int>) -> (r: usize)
    requires
        at < ENTRY_ALIGNMENT,
        at == pos % (ENTRY_ALIGNMENT as int),
    ensures
        r < ENTRY_ALIGNMENT,
        r == (pos + len) % (ENTRY_ALIGNMENT as int),
{
    (at + len % ENTRY_ALIGNMENT) % ENTRY_ALIGNMENT
}

/// The element that an entry makes where it begins at `at`.
pub fn frame_entry(name: &str, value: &[u8], at: usize) -> (r: Result<Vec<u8>, RepoError>)
    ensures
        match r {
            Ok(element) => element_of(name@, value@, at as int) == Some(element@),
            Err(e) => element_of(name@, value@, at as int) is None && e.source is Variant,
        },
{
    let rest = pad(name.as_bytes().len() % ENTRY_ALIGNMENT + 1, value);
    proof {
        lemma_padding_mod(
            (encode_utf8(name@).len() % ENTRY_ALIGNMENT as nat + 1) as int,
            value_start(name@),
        );
    }
    match encode_entry(name, rest.as_slice()) {
        Ok(entry) => Ok(pad(at, entry.as_slice())),
        Err(e) => Err(RepoError::from(e)),
    }
}

/// The entry that an element holds where it begins at `at`.
pub fn unframe_element(element: &[u8], at: usize) -> (r: Result<(String, Vec<u8>), RepoError>)
    ensures
        match r {
            Ok(found) => element_parsed(element@, at as int) == Ok::<
                (Seq<char>, Seq<u8>),
                Unframed,
            >((found.0@, found.1@)),
            Err(e) => match element_parsed(element@, at as int) {
                Err(Unframed::Padding) => e.source is Format,
                Err(Unframed::Codec) => e.source is Variant,
                Ok(_) => false,
            },
        },
{
    let entry = match unpad(at, element) {
        Some(entry) => entry,
        None => {
            return Err(RepoError::from(RepoErrorKind::Format));
        },
    };
    let (name, rest) = match decode_entry(entry) {
        Ok(found) => found,
        Err(e) => {
            return Err(RepoError::from(e));
        },
    };
    proof {
        lemma_padding_mod(
            (encode_utf8(name@).len() % ENTRY_ALIGNMENT as nat + 1) as int,
            value_start(name@),
        );
    }
    let value = match unpad(name.as_str().as_bytes().len() % ENTRY_ALIGNMENT + 1, rest.as_slice()) {
        Some(value) => crate::stream::copy_range(value, 0, value.len()),
        None => {
            return Err(RepoError::from(RepoErrorKind::Format));
        },
    };
    proof {
        assert(value@ =~= unpadded(value_start(name@), rest@)->0);
    }
    Ok((name, value))
}

/// Once the codec has refused a name, more entries make no elements.
proof fn lemma_elements_of_stays(entries: Seq<(Seq<char>, Seq<u8>)>, i: int, n: int)
    requires
        0 <= i <= n <= entries.len(),
        elements_of(entries, i) is None,
    ensures
        elements_of(entries, n) is None,
    decreases n - i,
{
    if i < n {
        lemma_elements_of_stays(entries, i, n - 1);
    }
}

/// Once an element has been found to be no entry, more elements change
/// nothing.
proof fn lemma_elements_parsed_stays(elements: Seq<Seq<u8>>, i: int, n: int)
    requires
        0 <= i <= n <= elements.len(),
        elements_parsed(elements, i) is Err,
    ensures
        elements_parsed(elements, n) == elements_parsed(elements, i),
    decreases n - i,
{
    if i < n {
        lemma_elements_parsed_stays(elements, i, n - 1);
    }
}

/// The elements that the entries of a commit's metadata make, in the
/// order given. It fails where the codec refuses a name, and only then.
pub fn frame_entries(entries: &[(String, Vec<u8>)]) -> (r: Result<Vec<Vec<u8>>, RepoError>)
    ensures
        match r {
            Ok(elements) => elements_of(entries_view(entries@), entries@.len() as int) == Some(
                byte_strings(elements@),
            ),
            Err(e) => elements_of(entries_view(entries@), entries@.len() as int) is None
                && e.source is Variant,
        },
{
    let ghost view = entries_view(entries@);
    let mut elements: Vec<Vec<u8>> = Vec::new();
    let mut at: usize = 0;
    let mut i: usize = 0;
    proof {
        assert(byte_strings(elements@) =~= Seq::<Seq<u8>>::empty());
    }
    while i < entries.len()
        invariant
            i <= entries@.len(),
            view == entries_view(entries@),
            elements_of(view, i as int) == Some(byte_strings(elements@)),
            at < ENTRY_ALIGNMENT,
            at == position(byte_strings(elements@), elements@.len() as int) % (
            ENTRY_ALIGNMENT as int),
        decreases entries@.len() - i,
    {
        let ghost before = byte_strings(elements@);
        let ghost pos = position(before, before.len() as int);
        let element = match frame_entry(entries[i].0.as_str(), entries[i].1.as_slice(), at) {
            Ok(element) => element,
            Err(e) => {
                proof {
                    lemma_padding_mod(at as int, pos);
                    assert(view[i as int] == (entries@[i as int].0@, entries@[i as int].1@));
                    assert(elements_of(view, i + 1) is None);
                    lemma_elements_of_stays(view, i + 1, entries@.len() as int);
                }
                return Err(e);
            },
        };
        proof {
            lemma_padding_mod(at as int, pos);
            assert(view[i as int] == (entries@[i as int].0@, entries@[i as int].1@));
            lemma_position_push(before, element@);
        }
        at = advance(at, element.len(), Ghost(pos));
        elements.push(element);
        proof {
            assert(byte_strings(elements@) =~= before.push(element@));
        }
        i += 1;
    }
    Ok(elements)
}

/// The entries that the elements of a commit's metadata hold, in the
/// order given. An element that is not padded as an entry is, is refused
/// as malformed; one that the codec refuses, with the codec's failure.
pub fn unframe_elements(elements: &Vec<Vec<u8>>) -> (r: Result<Vec<(String, Vec<u8>)>, RepoError>)
    ensures
        match r {
            Ok(entries) => elements_parsed(byte_strings(elements@), elements@.len() as int) == Ok::<
                Seq<(Seq<char>, Seq<u8>)>,
                Unframed,
            >(entries_view(entries@)),
            Err(e) => match elements_parsed(byte_strings(elements@), elements@.len() as int) {
                Err(Unframed::Padding) => e.source is Format,
                Err(Unframed::Codec) => e.source is Variant,
                Ok(_) => false,
            },
        },
{
    let ghost all = byte_strings(elements@);
    let mut entries: Vec<(String, Vec<u8>)> = Vec::new();
    let mut at: usize = 0;
    let mut i: usize = 0;
    proof {
        assert(entries_view(entries@) =~= Seq::<(Seq<char>, Seq<u8>)>::empty());
    }
    while i < elements.len()
        invariant
            i <= elements@.len(),
            all == byte_strings(elements@),
            elements_parsed(all, i as int) == Ok::<Seq<(Seq<char>, Seq<u8>)>, Unframed>(
                entries_view(entries@),
            ),
            at < ENTRY_ALIGNMENT,
            at == position(all, i as int) % (ENTRY_ALIGNMENT as int),
        decreases elements@.len() - i,
    {
        let ghost pos = position(all, i as int);
        proof {
            lemma_padding_mod(at as int, pos);
            assert(all[i as int] == elements@[i as int]@);
        }
        let found = match unframe_element(elements[i].as_slice(), at) {
            Ok(found) => found,
            Err(e) => {
                proof {
                    assert(elements_parsed(all, i + 1) is Err);
                    lemma_elements_parsed_stays(all, i + 1, elements@.len() as int);
                }
                return Err(e);
            },
        };
        let ghost before = entries_view(entries@);
        at = advance(at, elements[i].len(), Ghost(pos));
        entries.push(found);
        proof {
            assert(entries_view(entries@) =~= before.push((found.0@, found.1@)));
        }
        i += 1;
    }
    Ok(entries)
}

/// Whether the codec reads each of the first `n` entries back as the name
/// and the byte string that it was encoded from.
pub open spec fn entries_read_back(entries: Seq<(Seq<char>, Seq<u8>)>, n: int) -> bool {
    forall|i: int|
        0 <= i < n && i < entries.len() ==> gvariant_entry_parsed(
            entry_of((#[trigger] entries[i]).0, entries[i].1)->0,
        ) == Some((entries[i].0, padded(value_start(entries[i].0), entries[i].1)))
}

/// The first `n` entries make `n` elements.
pub proof fn lemma_elements_of_len(entries: Seq<(Seq<char>, Seq<u8>)>, n: int)
    requires
        0 <= n <= entries.len(),
        elements_of(entries, n) is Some,
    ensures
        elements_of(entries, n)->0.len() == n,
        n > 0 ==> elements_of(entries, n - 1) is Some,
    decreases n,
{
    if n > 0 {
        lemma_elements_of_len(entries, n - 1);
    }
}

/// One more element leaves what the elements before it are read as.
pub proof fn lemma_elements_parsed_prefix(elements: Seq<Seq<u8>>, element: Seq<u8>, n: int)
    requires
        0 <= n <= elements.len(),
    ensures
        elements_parsed(elements.push(element), n) == elements_parsed(elements, n),
    decreases n,
{
    if n > 0 {
        lemma_elements_parsed_prefix(elements, element, n - 1);
        lemma_position_prefix(elements, element, n - 1);
        assert(elements.push(element)[n - 1] == elements[n - 1]);
    }
}

/// The elements that entries make are read as those entries, where the
/// codec reads each entry back as it was encoded: the padding that this
/// library puts before an entry and before its value is what it takes
/// off again.
pub proof fn lemma_elements_round_trip(entries: Seq<(Seq<char>, Seq<u8>)>, n: int)
    requires
        0 <= n <= entries.len(),
        elements_of(entries, n) is Some,
        entries_read_back(entries, n),
    ensures
        elements_parsed(elements_of(entries, n)->0, n) == Ok::<
            Seq<(Seq<char>, Seq<u8>)>,
            Unframed,
        >(entries.take(n)),
    decreases n,
{
    if n == 0 {
        assert(entries.take(0) =~= Seq::empty());
    } else {
        lemma_elements_of_len(entries, n);
        lemma_elements_of_len(entries, n - 1);
        lemma_elements_round_trip(entries, n - 1);
        let before = elements_of(entries, n - 1)->0;
        let name = entries[n - 1].0;
        let value = entries[n - 1].1;
        let entry = entry_of(name, value)->0;
        let pos = position(before, before.len() as int);
        let element = padded(pos, entry);
        let all = elements_of(entries, n)->0;
        assert(all == before.push(element));
        lemma_elements_parsed_prefix(before, element, n - 1);
        lemma_position_prefix(before, element, n - 1);
        assert(all[n - 1] == element);
        lemma_unpadded_padded(pos, entry);
        assert(gvariant_entry_parsed(entry) == Some((name, padded(value_start(name), value))));
        lemma_unpadded_padded(value_start(name), value);
        assert(element_parsed(element, pos) == Ok::<(Seq<char>, Seq<u8>), Unframed>((name, value)));
        assert(entries.take(n) =~= entries.take(n - 1).push((name, value)));
    }
}

/// Whether `s` is where the content of a value ends and its type
/// signature begins: the last zero byte that is not the last byte.
pub open spec fn is_separator(value: Seq<u8>, s: int) -> bool {
    &&& 0 <= s < value.len() - 1
    &&& value[s] == 0
    &&& forall|j: int| s < j < value.len() - 1 ==> value[j] != 0
}

/// Whether `signature` is the type signature of a plain value: of a truth
/// value, a number of 32 or 64 bits, a string or a byte string.
pub open spec fn plain_signature(signature: Seq<u8>) -> bool {
    ||| signature == seq![0x62u8]
    ||| signature == seq![0x75u8]
    ||| signature == seq![0x74u8]
    ||| signature == seq![0x78u8]
    ||| signature == seq![0x73u8]
    ||| signature == seq![0x61u8, 0x79u8]
}

/// Whether `value`, the bytes that stand for a value, end in the type
/// signature of a plain value.
pub open spec fn plain_variant(value: Seq<u8>) -> bool {
    exists|s: int|
        is_separator(value, s) && plain_signature(value.subrange(s + 1, value.len() as int))
}

/// Where the content of a value ends and its type signature begins.
pub fn separator_of(value: &[u8]) -> (r: Option<usize>)
    ensures
        match r {
            Some(s) => is_separator(value@, s as int),
            None => forall|s: int| !is_separator(value@, s),
        },
{
    if value.len() < 2 {
        return None;
    }
    let mut i: usize = value.len() - 1;
    while i > 0
        invariant
            i <= value@.len() - 1,
            forall|j: int| i <= j < value@.len() - 1 ==> value@[j] != 0,
        decreases i,
    {
        i -= 1;
        if value[i] == 0 {
            return Some(i);
        }
    }
    None
}

/// Whether the bytes that stand for a value end in the type signature of
/// a plain value.
pub fn is_plain_variant(value: &[u8]) -> (r: bool)
    ensures
        r == plain_variant(value@),
{
    let s = match separator_of(value) {
        Some(s) => s,
        None => {
            return false;
        },
    };
    let len = value.len();
    let signature = slice_subrange(value, s + 1, len);
    let r = if signature.len() == 1 {
        signature[0] == 0x62 || signature[0] == 0x75 || signature[0] == 0x74 || signature[0] == 0x78
            || signature[0] == 0x73
    } else if signature.len() == 2 {
        signature[0] == 0x61 && signature[1] == 0x79
    } else {
        false
    };
    proof {
        let sig = signature@;
        if r {
            if sig.len() == 1 {
                assert(sig =~= seq![sig[0]]);
            } else {
                assert(sig =~= seq![0x61u8, 0x79u8]);
            }
        } else {
            assert(!plain_signature(sig)) by {
                if sig.len() == 1 {
                    assert(seq![0x62u8][0] == 0x62u8);
                    assert(seq![0x75u8][0] == 0x75u8);
                    assert(seq![0x74u8][0] == 0x74u8);
                    assert(seq![0x78u8][0] == 0x78u8);
                    assert(seq![0x73u8][0] == 0x73u8);
                } else if sig.len() == 2 {
                    assert(seq![0x61u8, 0x79u8][0] == 0x61u8);
                    assert(seq![0x61u8, 0x79u8][1] == 0x79u8);
                } else {
                    assert(seq![0x62u8].len() == 1);
                    assert(seq![0x61u8, 0x79u8].len() == 2);
                }
            }
            assert forall|t: int| is_separator(value@, t) implies !plain_signature(
                value@.subrange(t + 1, value@.len() as int),
            ) by {
                if t < s {
                    assert(value@[s as int] == 0);
                }
                if s < t {
                    assert(value@[t] == 0);
                }
            }
        }
    }
    r
}

} // verus!
