use vstd::prelude::*;
use vstd::string::{StrSliceExecFns, StringExecFns};

use crate::item::{norm, normalized, opt_view, CacheItem, ItemView};
use crate::key::{CacheKey, KeyView};

verus! {

// The textual serialization of a cache item, used for test corpora.
//
// An item is written as thirteen fields in the order of the data model,
// each as `name=payload;`. Payloads are self-delimiting:
//   - a number is sixteen hexadecimal digits, most significant first;
//   - a string is its character count as a number, a `:`, and the
//     characters themselves, verbatim;
//   - a key is two strings (sender, then id);
//   - an optional value is `n`, or `s` followed by the value;
//   - a child list is its length as a number followed by that many keys.
// Serialization applies the empty-string normalization first, so a parsed
// item never carries an empty optional string: `name` serialized as the
// empty string deserializes to absent.

/// The character for one hexadecimal digit.
pub open spec fn hex_digit(d: u64) -> char {
    if d == 0 {
        '0'
    } else if d == 1 {
        '1'
    } else if d == 2 {
        '2'
    } else if d == 3 {
        '3'
    } else if d == 4 {
        '4'
    } else if d == 5 {
        '5'
    } else if d == 6 {
        '6'
    } else if d == 7 {
        '7'
    } else if d == 8 {
        '8'
    } else if d == 9 {
        '9'
    } else if d == 10 {
        'a'
    } else if d == 11 {
        'b'
    } else if d == 12 {
        'c'
    } else if d == 13 {
        'd'
    } else if d == 14 {
        'e'
    } else {
        'f'
    }
}

/// The value of one hexadecimal digit character; 16 for any other
/// character.
pub open spec fn digit_val(c: char) -> u64 {
    if c == '0' {
        0
    } else if c == '1' {
        1
    } else if c == '2' {
        2
    } else if c == '3' {
        3
    } else if c == '4' {
        4
    } else if c == '5' {
        5
    } else if c == '6' {
        6
    } else if c == '7' {
        7
    } else if c == '8' {
        8
    } else if c == '9' {
        9
    } else if c == 'a' {
        10
    } else if c == 'b' {
        11
    } else if c == 'c' {
        12
    } else if c == 'd' {
        13
    } else if c == 'e' {
        14
    } else if c == 'f' {
        15
    } else {
        16
    }
}

/// Whether `c` is a hexadecimal digit of this encoding.
pub open spec fn is_hex_digit(c: char) -> bool {
    digit_val(c) < 16
}

/// The `i`-th four-bit group of `v`, most significant first.
pub open spec fn nibble(v: u64, i: int) -> u64 {
    (v >> (((15 - i) * 4) as u64)) & 0xf
}

/// A number: exactly sixteen hexadecimal digits.
pub open spec fn hex_rep(v: u64) -> Seq<char> {
    Seq::new(16, |i: int| hex_digit(nibble(v, i)))
}

/// The number read back from a digit sequence.
pub open spec fn hex_val(ds: Seq<char>) -> u64
    decreases ds.len(),
{
    if ds.len() == 0 {
        0
    } else {
        (hex_val(ds.drop_last()) << 4) | digit_val(ds.last())
    }
}

/// A string: its length, a colon, and the characters verbatim.
pub open spec fn str_rep(s: Seq<char>) -> Seq<char> {
    hex_rep(s.len() as u64) + seq![':'] + s
}

/// A key: sender string, then id string.
pub open spec fn key_rep(k: KeyView) -> Seq<char> {
    str_rep(k.sender) + str_rep(k.id)
}

/// An optional number: `n`, or `s` and the number.
pub open spec fn optnum_rep(o: Option<usize>) -> Seq<char> {
    match o {
        None => seq!['n'],
        Some(v) => seq!['s'] + hex_rep(v as u64),
    }
}

/// An optional string: `n`, or `s` and the string.
pub open spec fn optstr_rep(o: Option<Seq<char>>) -> Seq<char> {
    match o {
        None => seq!['n'],
        Some(s) => seq!['s'] + str_rep(s),
    }
}

/// A list of keys, one after the other.
pub open spec fn key_list_rep(ks: Seq<KeyView>) -> Seq<char>
    decreases ks.len(),
{
    if ks.len() == 0 {
        Seq::empty()
    } else {
        key_rep(ks[0]) + key_list_rep(ks.drop_first())
    }
}

/// A child list: its length, then the keys.
pub open spec fn children_rep(ks: Seq<KeyView>) -> Seq<char> {
    hex_rep(ks.len() as u64) + key_list_rep(ks)
}

/// One named field: `name=payload;`.
pub open spec fn field_rep(name: Seq<char>, payload: Seq<char>) -> Seq<char> {
    name + seq!['='] + payload + seq![';']
}

/// An item with every optional string normalized; what serialization
/// writes and what parsing hands back.
pub open spec fn norm_item(v: ItemView) -> ItemView {
    ItemView {
        name: norm(v.name),
        description: norm(v.description),
        help_text: norm(v.help_text),
        text: norm(v.text),
        ..v
    }
}

/// The items' fields in order, from the child list on.
#[verifier::opaque]
pub open spec fn rep_from_children(v: ItemView) -> Seq<char> {
    field_rep("children"@, children_rep(v.children)) + rep_from_interfaces(v)
}

#[verifier::opaque]
pub open spec fn rep_from_interfaces(v: ItemView) -> Seq<char> {
    field_rep("interfaces"@, hex_rep(v.interfaces as u64)) + rep_from_role(v)
}

#[verifier::opaque]
pub open spec fn rep_from_role(v: ItemView) -> Seq<char> {
    field_rep("role"@, hex_rep(v.role as u64)) + rep_from_states(v)
}

#[verifier::opaque]
pub open spec fn rep_from_states(v: ItemView) -> Seq<char> {
    field_rep("states"@, hex_rep(v.states)) + rep_from_name(v)
}

#[verifier::opaque]
pub open spec fn rep_from_name(v: ItemView) -> Seq<char> {
    field_rep("name"@, optstr_rep(v.name)) + rep_from_description(v)
}

#[verifier::opaque]
pub open spec fn rep_from_description(v: ItemView) -> Seq<char> {
    field_rep("description"@, optstr_rep(v.description)) + rep_from_help_text(v)
}

#[verifier::opaque]
pub open spec fn rep_from_help_text(v: ItemView) -> Seq<char> {
    field_rep("help_text"@, optstr_rep(v.help_text)) + rep_from_text(v)
}

#[verifier::opaque]
pub open spec fn rep_from_text(v: ItemView) -> Seq<char> {
    field_rep("text"@, optstr_rep(v.text))
}

#[verifier::opaque]
pub open spec fn rep_from_children_num(v: ItemView) -> Seq<char> {
    field_rep("children_num"@, optnum_rep(v.children_num)) + rep_from_children(v)
}

#[verifier::opaque]
pub open spec fn rep_from_index(v: ItemView) -> Seq<char> {
    field_rep("index"@, optnum_rep(v.index)) + rep_from_children_num(v)
}

#[verifier::opaque]
pub open spec fn rep_from_parent(v: ItemView) -> Seq<char> {
    field_rep("parent"@, key_rep(v.parent)) + rep_from_index(v)
}

#[verifier::opaque]
pub open spec fn rep_from_app(v: ItemView) -> Seq<char> {
    field_rep("app"@, key_rep(v.app)) + rep_from_parent(v)
}

/// The full textual form of one (normalized) item.
pub open spec fn item_rep(v: ItemView) -> Seq<char> {
    field_rep("object"@, key_rep(v.object)) + rep_from_app(v)
}

/// Append one character.
/// Relies on `String::push`: appends exactly the given character at the
/// end.
#[verifier::external_body]
fn push_char(out: &mut String, c: char)
    ensures
        final(out)@ == old(out)@.push(c),
{
    out.push(c);
}

/// Append the sixteen-digit form of `v`.
fn emit_hex(out: &mut String, v: u64)
    ensures
        final(out)@ == old(out)@ + hex_rep(v),
{
    let ghost base = out@;
    let mut i: usize = 0;
    while i < 16
        invariant
            i <= 16,
            out@ == base + hex_rep(v).take(i as int),
        decreases 16 - i,
    {
        let sh: u64 = ((15 - i) * 4) as u64;
        let d: u64 = (v >> sh) & 0xf;
        proof {
            assert(d == nibble(v, i as int));
            assert(d < 16) by (bit_vector)
                requires
                    d == (v >> sh) & 0xf,
            ;
        }
        let c = if d == 0 {
            '0'
        } else if d == 1 {
            '1'
        } else if d == 2 {
            '2'
        } else if d == 3 {
            '3'
        } else if d == 4 {
            '4'
        } else if d == 5 {
            '5'
        } else if d == 6 {
            '6'
        } else if d == 7 {
            '7'
        } else if d == 8 {
            '8'
        } else if d == 9 {
            '9'
        } else if d == 10 {
            'a'
        } else if d == 11 {
            'b'
        } else if d == 12 {
            'c'
        } else if d == 13 {
            'd'
        } else if d == 14 {
            'e'
        } else {
            'f'
        };
        proof {
            assert(c == hex_digit(nibble(v, i as int)));
        }
        push_char(out, c);
        proof {
            assert(out@ =~= base + hex_rep(v).take(i + 1));
        }
        i = i + 1;
    }
    proof {
        assert(hex_rep(v).take(16) =~= hex_rep(v));
    }
}

/// Append the length-prefixed form of `s`.
fn emit_str(out: &mut String, s: &str)
    ensures
        final(out)@ == old(out)@ + str_rep(s@),
{
    let len = s.unicode_len();
    emit_hex(out, len as u64);
    push_char(out, ':');
    out.append(s);
    proof {
        assert(out@ =~= old(out)@ + str_rep(s@));
    }
}

/// Append the form of one key.
fn emit_key(out: &mut String, k: &CacheKey)
    ensures
        final(out)@ == old(out)@ + key_rep(k@),
{
    emit_str(out, k.sender.as_str());
    emit_str(out, k.id.as_str());
    proof {
        assert(out@ =~= old(out)@ + key_rep(k@));
    }
}

/// Append the form of an optional number.
fn emit_optnum(out: &mut String, o: &Option<usize>)
    ensures
        final(out)@ == old(out)@ + optnum_rep(*o),
{
    match o {
        None => {
            push_char(out, 'n');
            proof {
                assert(out@ =~= old(out)@ + optnum_rep(None::<usize>));
            }
        },
        Some(v) => {
            push_char(out, 's');
            emit_hex(out, *v as u64);
            proof {
                assert(out@ =~= old(out)@ + optnum_rep(Some(*v)));
            }
        },
    }
}

/// Append the form of an optional string, normalizing the empty string to
/// absent first.
fn emit_optstr(out: &mut String, o: &Option<String>)
    ensures
        final(out)@ == old(out)@ + optstr_rep(norm(opt_view(*o))),
{
    match o {
        None => {
            push_char(out, 'n');
            proof {
                assert(out@ =~= old(out)@ + optstr_rep(None::<Seq<char>>));
            }
        },
        Some(s) => {
            if s.as_str().unicode_len() == 0 {
                push_char(out, 'n');
                proof {
                    assert(out@ =~= old(out)@ + optstr_rep(None::<Seq<char>>));
                }
            } else {
                push_char(out, 's');
                emit_str(out, s.as_str());
                proof {
                    assert(out@ =~= old(out)@ + optstr_rep(Some(s@)));
                }
            }
        },
    }
}

/// `key_list_rep` distributes over appending one key at the end.
proof fn lemma_key_list_rep_push(ks: Seq<KeyView>, k: KeyView)
    ensures
        key_list_rep(ks.push(k)) == key_list_rep(ks) + key_rep(k),
    decreases ks.len(),
{
    if ks.len() == 0 {
        assert(ks.push(k)[0] == k);
        assert(ks.push(k).drop_first() =~= Seq::<KeyView>::empty());
        assert(key_list_rep(Seq::<KeyView>::empty()) == Seq::<char>::empty());
        assert(key_list_rep(ks.push(k)) == key_rep(k) + Seq::<char>::empty());
        assert(key_list_rep(ks.push(k)) =~= key_rep(k));
        assert(key_list_rep(ks) + key_rep(k) =~= key_rep(k));
    } else {
        assert(ks.push(k).drop_first() =~= ks.drop_first().push(k));
        lemma_key_list_rep_push(ks.drop_first(), k);
        assert(ks.push(k)[0] == ks[0]);
        assert(key_list_rep(ks.push(k)) == key_rep(ks[0]) + key_list_rep(ks.drop_first().push(k)));
        assert(key_rep(ks[0]) + (key_list_rep(ks.drop_first()) + key_rep(k)) =~= (key_rep(ks[0])
            + key_list_rep(ks.drop_first())) + key_rep(k));
    }
}

/// Append the form of a child list.
fn emit_children(out: &mut String, ks: &Vec<CacheKey>)
    ensures
        final(out)@ == old(out)@ + children_rep(ks.deep_view()),
{
    emit_hex(out, ks.len() as u64);
    let ghost base = out@;
    let mut i: usize = 0;
    while i < ks.len()
        invariant
            i <= ks@.len(),
            out@ == base + key_list_rep(ks.deep_view().take(i as int)),
        decreases ks@.len() - i,
    {
        emit_key(out, &ks[i]);
        proof {
            lemma_key_list_rep_push(ks.deep_view().take(i as int), ks@[i as int]@);
            assert(ks.deep_view().take(i + 1) =~= ks.deep_view().take(i as int).push(
                ks@[i as int]@,
            ));
            assert(out@ =~= base + key_list_rep(ks.deep_view().take(i + 1)));
        }
        i = i + 1;
    }
    proof {
        assert(ks.deep_view().take(ks@.len() as int) =~= ks.deep_view());
        assert(out@ =~= old(out)@ + children_rep(ks.deep_view()));
    }
}

/// Append `name=payload;` around a payload emitter's output: the name and
/// `=` first, then the caller emits the payload, then [`close_field`].
fn open_field(out: &mut String, name: &str)
    ensures
        final(out)@ == old(out)@ + name@ + seq!['='],
{
    out.append(name);
    push_char(out, '=');
    proof {
        assert(out@ =~= old(out)@ + name@ + seq!['=']);
    }
}

/// Close one field.
fn close_field(out: &mut String)
    ensures
        final(out)@ == old(out)@ + seq![';'],
{
    push_char(out, ';');
    proof {
        assert(out@ =~= old(out)@ + seq![';']);
    }
}

/// Write the textual form of `item`, normalizing the optional strings on
/// the way out; together with the parser's completeness contract this
/// guarantees that serializing any item and parsing the text back yields
/// Append the fields from `interfaces` on.
#[verifier::rlimit(100)]
#[verifier::spinoff_prover]
fn emit_tail(out: &mut String, item: &CacheItem)
    ensures
        final(out)@ == old(out)@ + rep_from_interfaces(norm_item(item@)),
{
    let ghost v = norm_item(item@);
    let ghost c6 = out@;
    open_field(out, "interfaces");
    emit_hex(out, item.interfaces as u64);
    close_field(out);
    proof {
        assert(out@ =~= c6 + field_rep("interfaces"@, hex_rep(v.interfaces as u64)));
    }
    let ghost c7 = out@;
    open_field(out, "role");
    emit_hex(out, item.role as u64);
    close_field(out);
    proof {
        assert(out@ =~= c7 + field_rep("role"@, hex_rep(v.role as u64)));
    }
    let ghost c8 = out@;
    open_field(out, "states");
    emit_hex(out, item.states);
    close_field(out);
    proof {
        assert(out@ =~= c8 + field_rep("states"@, hex_rep(v.states)));
    }
    let ghost c9 = out@;
    open_field(out, "name");
    emit_optstr(out, &item.name);
    close_field(out);
    proof {
        assert(out@ =~= c9 + field_rep("name"@, optstr_rep(v.name)));
    }
    let ghost c10 = out@;
    open_field(out, "description");
    emit_optstr(out, &item.description);
    close_field(out);
    proof {
        assert(out@ =~= c10 + field_rep("description"@, optstr_rep(v.description)));
    }
    let ghost c11 = out@;
    open_field(out, "help_text");
    emit_optstr(out, &item.help_text);
    close_field(out);
    proof {
        assert(out@ =~= c11 + field_rep("help_text"@, optstr_rep(v.help_text)));
    }
    let ghost c12 = out@;
    open_field(out, "text");
    emit_optstr(out, &item.text);
    close_field(out);
    proof {
        assert(out@ =~= c12 + field_rep("text"@, optstr_rep(v.text)));
        reveal(rep_from_text);
        reveal(rep_from_help_text);
        reveal(rep_from_description);
        reveal(rep_from_name);
        reveal(rep_from_states);
        reveal(rep_from_role);
        reveal(rep_from_interfaces);
        assert(out@ =~= old(out)@ + rep_from_interfaces(v));
    }
}

/// Write the textual form of `item`, normalizing the optional strings on
/// the way out; together with the parser's completeness contract this
/// guarantees that serializing any item and parsing the text back yields
/// the item with empty strings normalized to absent.
#[verifier::rlimit(100)]
pub fn serialize_item(item: &CacheItem) -> (r: String)
    ensures
        r@ == item_rep(norm_item(item@)),
{
    let mut out = String::new();
    let ghost v = norm_item(item@);
    open_field(&mut out, "object");
    emit_key(&mut out, &item.object);
    close_field(&mut out);
    proof {
        assert(out@ =~= field_rep("object"@, key_rep(v.object)));
        assert(item_rep(v) =~= out@ + rep_from_app(v));
    }
    let ghost c1 = out@;
    open_field(&mut out, "app");
    emit_key(&mut out, &item.app);
    close_field(&mut out);
    proof {
        assert(out@ =~= c1 + field_rep("app"@, key_rep(v.app)));
        reveal(rep_from_app);
        assert(item_rep(v) =~= out@ + rep_from_parent(v));
    }
    let ghost c2 = out@;
    open_field(&mut out, "parent");
    emit_key(&mut out, &item.parent);
    close_field(&mut out);
    proof {
        assert(out@ =~= c2 + field_rep("parent"@, key_rep(v.parent)));
        reveal(rep_from_parent);
        assert(item_rep(v) =~= out@ + rep_from_index(v));
    }
    let ghost c3 = out@;
    open_field(&mut out, "index");
    emit_optnum(&mut out, &item.index);
    close_field(&mut out);
    proof {
        assert(out@ =~= c3 + field_rep("index"@, optnum_rep(v.index)));
        reveal(rep_from_index);
        assert(item_rep(v) =~= out@ + rep_from_children_num(v));
    }
    let ghost c4 = out@;
    open_field(&mut out, "children_num");
    emit_optnum(&mut out, &item.children_num);
    close_field(&mut out);
    proof {
        assert(out@ =~= c4 + field_rep("children_num"@, optnum_rep(v.children_num)));
        reveal(rep_from_children_num);
        assert(item_rep(v) =~= out@ + rep_from_children(v));
    }
    let ghost c5 = out@;
    open_field(&mut out, "children");
    emit_children(&mut out, &item.children);
    close_field(&mut out);
    proof {
        assert(out@ =~= c5 + field_rep("children"@, children_rep(v.children)));
        reveal(rep_from_children);
        assert(item_rep(v) =~= out@ + rep_from_interfaces(v));
    }
    emit_tail(&mut out, item);
    proof {
        assert(item_rep(v) =~= out@);
    }
    out
}

/// The digit character of `d` reads back as `d`.
proof fn lemma_digit_inverse(d: u64)
    requires
        d < 16,
    ensures
        digit_val(hex_digit(d)) == d,
        is_hex_digit(hex_digit(d)),
{
}

/// Reading back a prefix of the sixteen-digit form reconstructs the
/// corresponding high bits.
proof fn lemma_hex_round_prefix(v: u64, k: int)
    requires
        1 <= k <= 16,
    ensures
        hex_val(hex_rep(v).take(k)) == v >> (((16 - k) * 4) as u64),
    decreases k,
{
    let ds = hex_rep(v).take(k);
    assert(ds.drop_last() =~= hex_rep(v).take(k - 1));
    assert(ds.last() == hex_digit(nibble(v, k - 1)));
    let a: u64 = ((16 - k) * 4) as u64;
    assert(nibble(v, k - 1) == (v >> a) & 0xf);
    assert((v >> a) & 0xf < 16) by (bit_vector);
    lemma_digit_inverse((v >> a) & 0xf);
    if k == 1 {
        assert(hex_rep(v).take(0) =~= Seq::<char>::empty());
        assert(hex_val(Seq::<char>::empty()) == 0);
        assert((0u64 << 4) | ((v >> a) & 0xf) == v >> a) by (bit_vector)
            requires
                a == 60,
        ;
    } else {
        lemma_hex_round_prefix(v, k - 1);
        let b: u64 = ((16 - (k - 1)) * 4) as u64;
        assert(((v >> b) << 4) | ((v >> a) & 0xf) == v >> a) by (bit_vector)
            requires
                b == a + 4 && a <= 56,
        ;
    }
}

/// Reading back the sixteen-digit form of `v` yields `v`, and every
/// character of it is a digit.
proof fn lemma_hex_round(v: u64)
    ensures
        hex_val(hex_rep(v)) == v,
        forall|i: int| 0 <= i < 16 ==> is_hex_digit(#[trigger] hex_rep(v)[i]),
{
    lemma_hex_round_prefix(v, 16);
    assert(hex_rep(v).take(16) =~= hex_rep(v));
    assert(v >> 0u64 == v) by (bit_vector);
    assert forall|i: int| 0 <= i < 16 implies is_hex_digit(#[trigger] hex_rep(v)[i]) by {
        let a: u64 = ((15 - i) * 4) as u64;
        assert((v >> a) & 0xf < 16) by (bit_vector);
        lemma_digit_inverse(nibble(v, i));
    }
}

/// Cut one chunk out of a decomposed window: if the window at `lo` reads
/// `pre + chunk + post`, then the chunk stands at `lo + pre.len()`.
proof fn lemma_chunk_at(s: Seq<char>, lo: int, pre: Seq<char>, chunk: Seq<char>, post: Seq<char>)
    requires
        0 <= lo,
        lo + pre.len() + chunk.len() + post.len() <= s.len(),
        s.subrange(lo, lo + pre.len() + chunk.len() + post.len()) == pre + chunk + post,
    ensures
        s.subrange(lo + pre.len(), lo + pre.len() + chunk.len()) == chunk,
{
    let hi = lo + pre.len() + chunk.len() + post.len();
    let w = s.subrange(lo, hi);
    assert forall|t: int| 0 <= t < chunk.len() implies s.subrange(
        lo + pre.len(),
        lo + pre.len() + chunk.len(),
    )[t] == chunk[t] by {
        assert(s[lo + pre.len() + t] == w[pre.len() + t]);
        assert(w[pre.len() + t] == chunk[t]);
    }
    assert(s.subrange(lo + pre.len(), lo + pre.len() + chunk.len()) =~= chunk);
}

/// The digit value of one character, if it is a digit of the encoding.
fn digit_of_char(c: char) -> (r: Option<u64>)
    ensures
        match r {
            Some(d) => d == digit_val(c) && d < 16,
            None => !is_hex_digit(c),
        },
{
    if c == '0' {
        Some(0)
    } else if c == '1' {
        Some(1)
    } else if c == '2' {
        Some(2)
    } else if c == '3' {
        Some(3)
    } else if c == '4' {
        Some(4)
    } else if c == '5' {
        Some(5)
    } else if c == '6' {
        Some(6)
    } else if c == '7' {
        Some(7)
    } else if c == '8' {
        Some(8)
    } else if c == '9' {
        Some(9)
    } else if c == 'a' {
        Some(10)
    } else if c == 'b' {
        Some(11)
    } else if c == 'c' {
        Some(12)
    } else if c == 'd' {
        Some(13)
    } else if c == 'e' {
        Some(14)
    } else if c == 'f' {
        Some(15)
    } else {
        None
    }
}

/// Read exactly sixteen digits at `i`. Whenever the sixteen characters at
/// `i` are the form of some number, that number comes back.
fn parse_hex(s: &str, i: usize) -> (r: Option<(u64, usize)>)
    ensures
        r matches Some(p) ==> p.1 == i + 16 && i + 16 <= s@.len() && p.0 == hex_val(
            s@.subrange(i as int, i as int + 16),
        ),
        forall|v: u64|
            (i + 16 <= s@.len() && s@.subrange(i as int, i as int + 16) == #[trigger] hex_rep(v))
                ==> (r matches Some(p) && p.0 == v && p.1 == i + 16),
{
    let slen = s.unicode_len();
    if slen < 16 || i > slen - 16 {
        return None;
    }
    let mut acc: u64 = 0;
    let mut j: usize = 0;
    while j < 16
        invariant
            j <= 16,
            slen == s@.len(),
            i + 16 <= slen,
            acc == hex_val(s@.subrange(i as int, i as int + j as int)),
            forall|t: int| 0 <= t < j ==> is_hex_digit(#[trigger] s@[i as int + t]),
        decreases 16 - j,
    {
        let c = s.get_char(i + j);
        let d = match digit_of_char(c) {
            Some(d) => d,
            None => {
                proof {
                    assert forall|v: u64|
                        !(i + 16 <= s@.len() && s@.subrange(i as int, i as int + 16)
                            == #[trigger] hex_rep(v)) by {
                        if s@.subrange(i as int, i as int + 16) == hex_rep(v) {
                            lemma_hex_round(v);
                            assert(s@[i as int + j as int] == hex_rep(v)[j as int]);
                        }
                    }
                }
                return None;
            },
        };
        proof {
            let w = s@.subrange(i as int, i as int + j as int + 1);
            assert(w.drop_last() =~= s@.subrange(i as int, i as int + j as int));
            assert(w.last() == c);
        }
        acc = (acc << 4) | d;
        j = j + 1;
    }
    proof {
        assert forall|v: u64|
            (i + 16 <= s@.len() && s@.subrange(i as int, i as int + 16) == #[trigger] hex_rep(v))
                implies acc == v by {
            lemma_hex_round(v);
        }
    }
    Some((acc, i + 16))
}

/// Expect one fixed character at `i`.
fn expect_char(s: &str, i: usize, c: char) -> (r: Option<usize>)
    ensures
        match r {
            Some(j) => j == i + 1 && i < s@.len() && s@[i as int] == c,
            None => !(i < s@.len() && s@[i as int] == c),
        },
{
    let slen = s.unicode_len();
    if i >= slen {
        return None;
    }
    if s.get_char(i) == c {
        Some(i + 1)
    } else {
        None
    }
}

/// Expect the literal `lit` at `i`.
fn expect_lit(s: &str, i: usize, lit: &str) -> (r: Option<usize>)
    ensures
        match r {
            Some(j) => j == i + lit@.len() && i + lit@.len() <= s@.len() && s@.subrange(
                i as int,
                j as int,
            ) == lit@,
            None => !(i + lit@.len() <= s@.len() && s@.subrange(i as int, i as int + lit@.len())
                == lit@),
        },
{
    let slen = s.unicode_len();
    let llen = lit.unicode_len();
    if i > slen || slen - i < llen {
        return None;
    }
    let mut j: usize = 0;
    while j < llen
        invariant
            j <= llen,
            slen == s@.len(),
            llen == lit@.len(),
            i + llen <= slen,
            forall|t: int| 0 <= t < j ==> s@[i as int + t] == lit@[t],
        decreases llen - j,
    {
        if s.get_char(i + j) != lit.get_char(j) {
            proof {
                if s@.subrange(i as int, i as int + lit@.len()) == lit@ {
                    assert(s@[i as int + j as int] == lit@[j as int]);
                    assert(false);
                }
            }
            return None;
        }
        j = j + 1;
    }
    proof {
        assert(s@.subrange(i as int, i as int + lit@.len()) =~= lit@);
    }
    Some(i + llen)
}

/// Read one length-prefixed string at `i`. Whenever the window at `i` is
/// the form of some character sequence, exactly that sequence comes back.
fn parse_str(s: &str, i: usize) -> (r: Option<(String, usize)>)
    ensures
        r matches Some(p) ==> i <= p.1 <= s@.len(),
        forall|t: Seq<char>|
            (i + str_rep(t).len() <= s@.len() && s@.subrange(
                i as int,
                i as int + str_rep(t).len(),
            ) == #[trigger] str_rep(t)) ==> (r matches Some(p) && p.0@ == t && p.1 == i + str_rep(
                t,
            ).len()),
{
    let slen = s.unicode_len();
    let (lenv, j) = match parse_hex(s, i) {
        Some(p) => p,
        None => {
            proof {
                assert forall|t: Seq<char>|
                    !(i + str_rep(t).len() <= s@.len() && s@.subrange(
                        i as int,
                        i as int + str_rep(t).len(),
                    ) == #[trigger] str_rep(t)) by {
                    if i + str_rep(t).len() <= s@.len() && s@.subrange(
                        i as int,
                        i as int + str_rep(t).len(),
                    ) == str_rep(t) {
                        assert(Seq::<char>::empty() + hex_rep(t.len() as u64) + (seq![':'] + t)
                            =~= str_rep(t));
                        lemma_chunk_at(
                            s@,
                            i as int,
                            Seq::<char>::empty(),
                            hex_rep(t.len() as u64),
                            seq![':'] + t,
                        );
                        assert(s@.subrange(i as int, i as int + 16) == hex_rep(t.len() as u64));
                    }
                }
            }
            return None;
        },
    };
    let j2 = match expect_char(s, j, ':') {
        Some(j2) => j2,
        None => {
            proof {
                assert forall|t: Seq<char>|
                    !(i + str_rep(t).len() <= s@.len() && s@.subrange(
                        i as int,
                        i as int + str_rep(t).len(),
                    ) == #[trigger] str_rep(t)) by {
                    if i + str_rep(t).len() <= s@.len() && s@.subrange(
                        i as int,
                        i as int + str_rep(t).len(),
                    ) == str_rep(t) {
                        assert(hex_rep(t.len() as u64) + seq![':'] + t =~= str_rep(t));
                        lemma_chunk_at(s@, i as int, hex_rep(t.len() as u64), seq![':'], t);
                        assert(s@.subrange(j as int, j as int + 1) == seq![':']);
                        assert(s@[j as int] == (seq![':'])[0]);
                    }
                }
            }
            return None;
        },
    };
    if lenv > (slen - j2) as u64 {
        proof {
            assert forall|t: Seq<char>|
                !(i + str_rep(t).len() <= s@.len() && s@.subrange(
                    i as int,
                    i as int + str_rep(t).len(),
                ) == #[trigger] str_rep(t)) by {
                if i + str_rep(t).len() <= s@.len() && s@.subrange(
                    i as int,
                    i as int + str_rep(t).len(),
                ) == str_rep(t) {
                    assert(Seq::<char>::empty() + hex_rep(t.len() as u64) + (seq![':'] + t)
                        =~= str_rep(t));
                    lemma_chunk_at(
                        s@,
                        i as int,
                        Seq::<char>::empty(),
                        hex_rep(t.len() as u64),
                        seq![':'] + t,
                    );
                    assert(s@.subrange(i as int, i as int + 16) == hex_rep(t.len() as u64));
                    lemma_hex_round(t.len() as u64);
                    assert(lenv == t.len());
                }
            }
        }
        return None;
    }
    let start = j2;
    let end = j2 + lenv as usize;
    let t2 = s.substring_char(start, end).to_owned();
    proof {
        assert forall|t: Seq<char>|
            (i + str_rep(t).len() <= s@.len() && s@.subrange(
                i as int,
                i as int + str_rep(t).len(),
            ) == #[trigger] str_rep(t)) implies t2@ == t && end == i + str_rep(t).len() by {
            assert(Seq::<char>::empty() + hex_rep(t.len() as u64) + (seq![':'] + t) =~= str_rep(
                t,
            ));
            lemma_chunk_at(
                s@,
                i as int,
                Seq::<char>::empty(),
                hex_rep(t.len() as u64),
                seq![':'] + t,
            );
            assert(s@.subrange(i as int, i as int + 16) == hex_rep(t.len() as u64));
            lemma_hex_round(t.len() as u64);
            assert(lenv == t.len());
            assert((hex_rep(t.len() as u64) + seq![':']) + t + Seq::<char>::empty() =~= str_rep(
                t,
            ));
            lemma_chunk_at(s@, i as int, hex_rep(t.len() as u64) + seq![':'], t, Seq::empty());
            assert(t2@ == s@.subrange(start as int, end as int));
        }
    }
    Some((t2, end))
}

/// Read one key (two strings) at `i`.
fn parse_key(s: &str, i: usize) -> (r: Option<(CacheKey, usize)>)
    ensures
        r matches Some(p) ==> i <= p.1 <= s@.len(),
        forall|k: KeyView|
            (i + key_rep(k).len() <= s@.len() && s@.subrange(i as int, i as int + key_rep(k).len())
                == #[trigger] key_rep(k)) ==> (r matches Some(p) && p.0@ == k && p.1 == i + key_rep(
                k,
            ).len()),
{
    let (sender, j) = match parse_str(s, i) {
        Some(p) => p,
        None => {
            proof {
                assert forall|k: KeyView|
                    !(i + key_rep(k).len() <= s@.len() && s@.subrange(
                        i as int,
                        i as int + key_rep(k).len(),
                    ) == #[trigger] key_rep(k)) by {
                    if i + key_rep(k).len() <= s@.len() && s@.subrange(
                        i as int,
                        i as int + key_rep(k).len(),
                    ) == key_rep(k) {
                        assert(Seq::<char>::empty() + str_rep(k.sender) + str_rep(k.id)
                            =~= key_rep(k));
                        lemma_chunk_at(
                            s@,
                            i as int,
                            Seq::<char>::empty(),
                            str_rep(k.sender),
                            str_rep(k.id),
                        );
                        assert(s@.subrange(i as int, i as int + str_rep(k.sender).len())
                            == str_rep(k.sender));
                    }
                }
            }
            return None;
        },
    };
    let (id, j2) = match parse_str(s, j) {
        Some(p) => p,
        None => {
            proof {
                assert forall|k: KeyView|
                    !(i + key_rep(k).len() <= s@.len() && s@.subrange(
                        i as int,
                        i as int + key_rep(k).len(),
                    ) == #[trigger] key_rep(k)) by {
                    if i + key_rep(k).len() <= s@.len() && s@.subrange(
                        i as int,
                        i as int + key_rep(k).len(),
                    ) == key_rep(k) {
                        assert(Seq::<char>::empty() + str_rep(k.sender) + str_rep(k.id)
                            =~= key_rep(k));
                        lemma_chunk_at(
                            s@,
                            i as int,
                            Seq::<char>::empty(),
                            str_rep(k.sender),
                            str_rep(k.id),
                        );
                        assert(s@.subrange(i as int, i as int + str_rep(k.sender).len())
                            == str_rep(k.sender));
                        assert(str_rep(k.sender) + str_rep(k.id) + Seq::<char>::empty()
                            =~= key_rep(k));
                        lemma_chunk_at(s@, i as int, str_rep(k.sender), str_rep(k.id), Seq::empty());
                        assert(s@.subrange(j as int, j as int + str_rep(k.id).len())
                            == str_rep(k.id));
                    }
                }
            }
            return None;
        },
    };
    proof {
        assert forall|k: KeyView|
            (i + key_rep(k).len() <= s@.len() && s@.subrange(i as int, i as int + key_rep(k).len())
                == #[trigger] key_rep(k)) implies sender@ == k.sender && id@ == k.id && j2 == i
            + key_rep(k).len() by {
            assert(Seq::<char>::empty() + str_rep(k.sender) + str_rep(k.id) =~= key_rep(k));
            lemma_chunk_at(s@, i as int, Seq::<char>::empty(), str_rep(k.sender), str_rep(k.id));
            assert(s@.subrange(i as int, i as int + str_rep(k.sender).len()) == str_rep(k.sender));
            assert(str_rep(k.sender) + str_rep(k.id) + Seq::<char>::empty() =~= key_rep(k));
            lemma_chunk_at(s@, i as int, str_rep(k.sender), str_rep(k.id), Seq::empty());
            assert(s@.subrange(j as int, j as int + str_rep(k.id).len()) == str_rep(k.id));
        }
    }
    Some((CacheKey { sender, id }, j2))
}


/// Decompose one field window into its four parts.
proof fn lemma_field_parts(s: Seq<char>, i: int, nm: Seq<char>, payload: Seq<char>)
    requires
        0 <= i,
        i + field_rep(nm, payload).len() <= s.len(),
        s.subrange(i, i + field_rep(nm, payload).len()) == field_rep(nm, payload),
    ensures
        field_rep(nm, payload).len() == nm.len() + payload.len() + 2,
        s.subrange(i, i + nm.len()) == nm,
        s[i + nm.len()] == '=',
        s.subrange(i + nm.len() + 1, i + nm.len() + 1 + payload.len()) == payload,
        s[i + nm.len() + 1 + payload.len()] == ';',
        payload.len() > 0 ==> s[i + nm.len() + 1] == payload[0],
{
    assert(Seq::<char>::empty() + nm + (seq!['='] + payload + seq![';']) =~= field_rep(
        nm,
        payload,
    ));
    lemma_chunk_at(s, i, Seq::<char>::empty(), nm, seq!['='] + payload + seq![';']);
    assert(nm + seq!['='] + (payload + seq![';']) =~= field_rep(nm, payload));
    lemma_chunk_at(s, i, nm, seq!['='], payload + seq![';']);
    assert(s.subrange(i + nm.len(), i + nm.len() + 1) == seq!['=']);
    assert(s[i + nm.len()] == s.subrange(i + nm.len(), i + nm.len() + 1)[0]);
    assert((nm + seq!['=']) + payload + seq![';'] =~= field_rep(nm, payload));
    lemma_chunk_at(s, i, nm + seq!['='], payload, seq![';']);
    assert((nm + seq!['='] + payload) + seq![';'] + Seq::<char>::empty() =~= field_rep(
        nm,
        payload,
    ));
    lemma_chunk_at(s, i, nm + seq!['='] + payload, seq![';'], Seq::<char>::empty());
    assert(s.subrange(
        i + nm.len() + 1 + payload.len(),
        i + nm.len() + 1 + payload.len() + 1,
    ) == seq![';']);
    assert(s[i + nm.len() + 1 + payload.len()] == s.subrange(
        i + nm.len() + 1 + payload.len(),
        i + nm.len() + 1 + payload.len() + 1,
    )[0]);
    if payload.len() > 0 {
        assert(s[i + nm.len() + 1] == s.subrange(
            i + nm.len() + 1,
            i + nm.len() + 1 + payload.len(),
        )[0]);
    }
}

/// Read one key-valued field `name=key;` at `i`.
fn parse_key_field(s: &str, i: usize, name: &str) -> (r: Option<(CacheKey, usize)>)
    ensures
        r matches Some(p) ==> i <= p.1 <= s@.len(),
        forall|k: KeyView|
            (i + field_rep(name@, key_rep(k)).len() <= s@.len() && s@.subrange(
                i as int,
                i as int + field_rep(name@, key_rep(k)).len(),
            ) == #[trigger] field_rep(name@, key_rep(k))) ==> (r matches Some(p) && p.0@ == k
                && p.1 == i + field_rep(name@, key_rep(k)).len()),
{
    let j = match expect_lit(s, i, name) {
        Some(j) => j,
        None => {
            proof {
                assert forall|k: KeyView|
                    !(i + field_rep(name@, key_rep(k)).len() <= s@.len() && s@.subrange(
                        i as int,
                        i as int + field_rep(name@, key_rep(k)).len(),
                    ) == #[trigger] field_rep(name@, key_rep(k))) by {
                    if i + field_rep(name@, key_rep(k)).len() <= s@.len() && s@.subrange(
                        i as int,
                        i as int + field_rep(name@, key_rep(k)).len(),
                    ) == field_rep(name@, key_rep(k)) {
                        lemma_field_parts(s@, i as int, name@, key_rep(k));
                    }
                }
            }
            return None;
        },
    };
    let j2 = match expect_char(s, j, '=') {
        Some(j2) => j2,
        None => {
            proof {
                assert forall|k: KeyView|
                    !(i + field_rep(name@, key_rep(k)).len() <= s@.len() && s@.subrange(
                        i as int,
                        i as int + field_rep(name@, key_rep(k)).len(),
                    ) == #[trigger] field_rep(name@, key_rep(k))) by {
                    if i + field_rep(name@, key_rep(k)).len() <= s@.len() && s@.subrange(
                        i as int,
                        i as int + field_rep(name@, key_rep(k)).len(),
                    ) == field_rep(name@, key_rep(k)) {
                        lemma_field_parts(s@, i as int, name@, key_rep(k));
                    }
                }
            }
            return None;
        },
    };
    let (key, j3) = match parse_key(s, j2) {
        Some(p) => p,
        None => {
            proof {
                assert forall|k: KeyView|
                    !(i + field_rep(name@, key_rep(k)).len() <= s@.len() && s@.subrange(
                        i as int,
                        i as int + field_rep(name@, key_rep(k)).len(),
                    ) == #[trigger] field_rep(name@, key_rep(k))) by {
                    if i + field_rep(name@, key_rep(k)).len() <= s@.len() && s@.subrange(
                        i as int,
                        i as int + field_rep(name@, key_rep(k)).len(),
                    ) == field_rep(name@, key_rep(k)) {
                        lemma_field_parts(s@, i as int, name@, key_rep(k));
                    }
                }
            }
            return None;
        },
    };
    let j4 = match expect_char(s, j3, ';') {
        Some(j4) => j4,
        None => {
            proof {
                assert forall|k: KeyView|
                    !(i + field_rep(name@, key_rep(k)).len() <= s@.len() && s@.subrange(
                        i as int,
                        i as int + field_rep(name@, key_rep(k)).len(),
                    ) == #[trigger] field_rep(name@, key_rep(k))) by {
                    if i + field_rep(name@, key_rep(k)).len() <= s@.len() && s@.subrange(
                        i as int,
                        i as int + field_rep(name@, key_rep(k)).len(),
                    ) == field_rep(name@, key_rep(k)) {
                        lemma_field_parts(s@, i as int, name@, key_rep(k));
                    }
                }
            }
            return None;
        },
    };
    proof {
        assert forall|k: KeyView|
            (i + field_rep(name@, key_rep(k)).len() <= s@.len() && s@.subrange(
                i as int,
                i as int + field_rep(name@, key_rep(k)).len(),
            ) == #[trigger] field_rep(name@, key_rep(k))) implies key@ == k && j4 == i + field_rep(
            name@,
            key_rep(k),
        ).len() by {
            lemma_field_parts(s@, i as int, name@, key_rep(k));
        }
    }
    Some((key, j4))
}

/// Read one number-valued field `name=number;` at `i`.
fn parse_num_field(s: &str, i: usize, name: &str) -> (r: Option<(u64, usize)>)
    ensures
        r matches Some(p) ==> i <= p.1 <= s@.len(),
        forall|v: u64|
            (i + field_rep(name@, hex_rep(v)).len() <= s@.len() && s@.subrange(
                i as int,
                i as int + field_rep(name@, hex_rep(v)).len(),
            ) == #[trigger] field_rep(name@, hex_rep(v))) ==> (r matches Some(p) && p.0 == v && p.1
                == i + field_rep(name@, hex_rep(v)).len()),
{
    let j = match expect_lit(s, i, name) {
        Some(j) => j,
        None => {
            proof {
                assert forall|v: u64|
                    !(i + field_rep(name@, hex_rep(v)).len() <= s@.len() && s@.subrange(
                        i as int,
                        i as int + field_rep(name@, hex_rep(v)).len(),
                    ) == #[trigger] field_rep(name@, hex_rep(v))) by {
                    if i + field_rep(name@, hex_rep(v)).len() <= s@.len() && s@.subrange(
                        i as int,
                        i as int + field_rep(name@, hex_rep(v)).len(),
                    ) == field_rep(name@, hex_rep(v)) {
                        lemma_field_parts(s@, i as int, name@, hex_rep(v));
                    }
                }
            }
            return None;
        },
    };
    let j2 = match expect_char(s, j, '=') {
        Some(j2) => j2,
        None => {
            proof {
                assert forall|v: u64|
                    !(i + field_rep(name@, hex_rep(v)).len() <= s@.len() && s@.subrange(
                        i as int,
                        i as int + field_rep(name@, hex_rep(v)).len(),
                    ) == #[trigger] field_rep(name@, hex_rep(v))) by {
                    if i + field_rep(name@, hex_rep(v)).len() <= s@.len() && s@.subrange(
                        i as int,
                        i as int + field_rep(name@, hex_rep(v)).len(),
                    ) == field_rep(name@, hex_rep(v)) {
                        lemma_field_parts(s@, i as int, name@, hex_rep(v));
                    }
                }
            }
            return None;
        },
    };
    let (value, j3) = match parse_hex(s, j2) {
        Some(p) => p,
        None => {
            proof {
                assert forall|v: u64|
                    !(i + field_rep(name@, hex_rep(v)).len() <= s@.len() && s@.subrange(
                        i as int,
                        i as int + field_rep(name@, hex_rep(v)).len(),
                    ) == #[trigger] field_rep(name@, hex_rep(v))) by {
                    if i + field_rep(name@, hex_rep(v)).len() <= s@.len() && s@.subrange(
                        i as int,
                        i as int + field_rep(name@, hex_rep(v)).len(),
                    ) == field_rep(name@, hex_rep(v)) {
                        lemma_field_parts(s@, i as int, name@, hex_rep(v));
                    }
                }
            }
            return None;
        },
    };
    let j4 = match expect_char(s, j3, ';') {
        Some(j4) => j4,
        None => {
            proof {
                assert forall|v: u64|
                    !(i + field_rep(name@, hex_rep(v)).len() <= s@.len() && s@.subrange(
                        i as int,
                        i as int + field_rep(name@, hex_rep(v)).len(),
                    ) == #[trigger] field_rep(name@, hex_rep(v))) by {
                    if i + field_rep(name@, hex_rep(v)).len() <= s@.len() && s@.subrange(
                        i as int,
                        i as int + field_rep(name@, hex_rep(v)).len(),
                    ) == field_rep(name@, hex_rep(v)) {
                        lemma_field_parts(s@, i as int, name@, hex_rep(v));
                        lemma_hex_round(v);
                    }
                }
            }
            return None;
        },
    };
    proof {
        assert forall|v: u64|
            (i + field_rep(name@, hex_rep(v)).len() <= s@.len() && s@.subrange(
                i as int,
                i as int + field_rep(name@, hex_rep(v)).len(),
            ) == #[trigger] field_rep(name@, hex_rep(v))) implies value == v && j4 == i + field_rep(
            name@,
            hex_rep(v),
        ).len() by {
            lemma_field_parts(s@, i as int, name@, hex_rep(v));
            lemma_hex_round(v);
        }
    }
    Some((value, j4))
}


/// Read one optional-number field `name=n;` or `name=snumber;` at `i`.
fn parse_optnum_field(s: &str, i: usize, name: &str) -> (r: Option<(Option<usize>, usize)>)
    ensures
        r matches Some(p) ==> i <= p.1 <= s@.len(),
        forall|o: Option<usize>|
            (i + field_rep(name@, optnum_rep(o)).len() <= s@.len() && s@.subrange(
                i as int,
                i as int + field_rep(name@, optnum_rep(o)).len(),
            ) == #[trigger] field_rep(name@, optnum_rep(o))) ==> (r matches Some(p) && p.0 == o
                && p.1 == i + field_rep(name@, optnum_rep(o)).len()),
{
    let j = match expect_lit(s, i, name) {
        Some(j) => j,
        None => {
            proof {
                assert forall|o: Option<usize>|
                    !(i + field_rep(name@, optnum_rep(o)).len() <= s@.len() && s@.subrange(
                        i as int,
                        i as int + field_rep(name@, optnum_rep(o)).len(),
                    ) == #[trigger] field_rep(name@, optnum_rep(o))) by {
                    if i + field_rep(name@, optnum_rep(o)).len() <= s@.len() && s@.subrange(
                        i as int,
                        i as int + field_rep(name@, optnum_rep(o)).len(),
                    ) == field_rep(name@, optnum_rep(o)) {
                        lemma_field_parts(s@, i as int, name@, optnum_rep(o));
                    }
                }
            }
            return None;
        },
    };
    let j2 = match expect_char(s, j, '=') {
        Some(j2) => j2,
        None => {
            proof {
                assert forall|o: Option<usize>|
                    !(i + field_rep(name@, optnum_rep(o)).len() <= s@.len() && s@.subrange(
                        i as int,
                        i as int + field_rep(name@, optnum_rep(o)).len(),
                    ) == #[trigger] field_rep(name@, optnum_rep(o))) by {
                    if i + field_rep(name@, optnum_rep(o)).len() <= s@.len() && s@.subrange(
                        i as int,
                        i as int + field_rep(name@, optnum_rep(o)).len(),
                    ) == field_rep(name@, optnum_rep(o)) {
                        lemma_field_parts(s@, i as int, name@, optnum_rep(o));
                    }
                }
            }
            return None;
        },
    };
    // An `n` flag means the value is absent.
    match expect_char(s, j2, 'n') {
        Some(j3) => {
            let j4 = match expect_char(s, j3, ';') {
                Some(j4) => j4,
                None => {
                    proof {
                        assert forall|o: Option<usize>|
                            !(i + field_rep(name@, optnum_rep(o)).len() <= s@.len() && s@.subrange(
                                i as int,
                                i as int + field_rep(name@, optnum_rep(o)).len(),
                            ) == #[trigger] field_rep(name@, optnum_rep(o))) by {
                            if i + field_rep(name@, optnum_rep(o)).len() <= s@.len()
                                && s@.subrange(
                                i as int,
                                i as int + field_rep(name@, optnum_rep(o)).len(),
                            ) == field_rep(name@, optnum_rep(o)) {
                                lemma_field_parts(s@, i as int, name@, optnum_rep(o));
                            }
                        }
                    }
                    return None;
                },
            };
            proof {
                assert forall|o: Option<usize>|
                    (i + field_rep(name@, optnum_rep(o)).len() <= s@.len() && s@.subrange(
                        i as int,
                        i as int + field_rep(name@, optnum_rep(o)).len(),
                    ) == #[trigger] field_rep(name@, optnum_rep(o))) implies o is None && j4 == i
                    + field_rep(name@, optnum_rep(o)).len() by {
                    lemma_field_parts(s@, i as int, name@, optnum_rep(o));
                }
            }
            Some((None, j4))
        },
        None => {
            let j3 = match expect_char(s, j2, 's') {
                Some(j3) => j3,
                None => {
                    proof {
                        assert forall|o: Option<usize>|
                            !(i + field_rep(name@, optnum_rep(o)).len() <= s@.len() && s@.subrange(
                                i as int,
                                i as int + field_rep(name@, optnum_rep(o)).len(),
                            ) == #[trigger] field_rep(name@, optnum_rep(o))) by {
                            if i + field_rep(name@, optnum_rep(o)).len() <= s@.len()
                                && s@.subrange(
                                i as int,
                                i as int + field_rep(name@, optnum_rep(o)).len(),
                            ) == field_rep(name@, optnum_rep(o)) {
                                lemma_field_parts(s@, i as int, name@, optnum_rep(o));
                            }
                        }
                    }
                    return None;
                },
            };
            let (value, j4) = match parse_hex(s, j3) {
                Some(p) => p,
                None => {
                    proof {
                        assert forall|o: Option<usize>|
                            !(i + field_rep(name@, optnum_rep(o)).len() <= s@.len() && s@.subrange(
                                i as int,
                                i as int + field_rep(name@, optnum_rep(o)).len(),
                            ) == #[trigger] field_rep(name@, optnum_rep(o))) by {
                            if i + field_rep(name@, optnum_rep(o)).len() <= s@.len()
                                && s@.subrange(
                                i as int,
                                i as int + field_rep(name@, optnum_rep(o)).len(),
                            ) == field_rep(name@, optnum_rep(o)) {
                                lemma_field_parts(s@, i as int, name@, optnum_rep(o));
                                if let Some(u) = o {
                                    assert(seq!['s'] + hex_rep(u as u64) + Seq::<char>::empty()
                                        =~= optnum_rep(o));
                                    lemma_chunk_at(
                                        s@,
                                        j2 as int,
                                        seq!['s'],
                                        hex_rep(u as u64),
                                        Seq::<char>::empty(),
                                    );
                                }
                            }
                        }
                    }
                    return None;
                },
            };
            if value > usize::MAX as u64 {
                proof {
                    assert forall|o: Option<usize>|
                        !(i + field_rep(name@, optnum_rep(o)).len() <= s@.len() && s@.subrange(
                            i as int,
                            i as int + field_rep(name@, optnum_rep(o)).len(),
                        ) == #[trigger] field_rep(name@, optnum_rep(o))) by {
                        if i + field_rep(name@, optnum_rep(o)).len() <= s@.len() && s@.subrange(
                            i as int,
                            i as int + field_rep(name@, optnum_rep(o)).len(),
                        ) == field_rep(name@, optnum_rep(o)) {
                            lemma_field_parts(s@, i as int, name@, optnum_rep(o));
                            if let Some(u) = o {
                                assert(seq!['s'] + hex_rep(u as u64) + Seq::<char>::empty()
                                    =~= optnum_rep(o));
                                lemma_chunk_at(
                                    s@,
                                    j2 as int,
                                    seq!['s'],
                                    hex_rep(u as u64),
                                    Seq::<char>::empty(),
                                );
                                lemma_hex_round(u as u64);
                            }
                        }
                    }
                }
                return None;
            }
            let j5 = match expect_char(s, j4, ';') {
                Some(j5) => j5,
                None => {
                    proof {
                        assert forall|o: Option<usize>|
                            !(i + field_rep(name@, optnum_rep(o)).len() <= s@.len() && s@.subrange(
                                i as int,
                                i as int + field_rep(name@, optnum_rep(o)).len(),
                            ) == #[trigger] field_rep(name@, optnum_rep(o))) by {
                            if i + field_rep(name@, optnum_rep(o)).len() <= s@.len()
                                && s@.subrange(
                                i as int,
                                i as int + field_rep(name@, optnum_rep(o)).len(),
                            ) == field_rep(name@, optnum_rep(o)) {
                                lemma_field_parts(s@, i as int, name@, optnum_rep(o));
                            }
                        }
                    }
                    return None;
                },
            };
            proof {
                assert forall|o: Option<usize>|
                    (i + field_rep(name@, optnum_rep(o)).len() <= s@.len() && s@.subrange(
                        i as int,
                        i as int + field_rep(name@, optnum_rep(o)).len(),
                    ) == #[trigger] field_rep(name@, optnum_rep(o))) implies o matches Some(u)
                    && u == value as usize && j5 == i + field_rep(name@, optnum_rep(o)).len() by {
                    lemma_field_parts(s@, i as int, name@, optnum_rep(o));
                    if let Some(u) = o {
                        assert(seq!['s'] + hex_rep(u as u64) + Seq::<char>::empty() =~= optnum_rep(
                            o,
                        ));
                        lemma_chunk_at(
                            s@,
                            j2 as int,
                            seq!['s'],
                            hex_rep(u as u64),
                            Seq::<char>::empty(),
                        );
                        lemma_hex_round(u as u64);
                    }
                }
            }
            Some((Some(value as usize), j5))
        },
    }
}

/// Read one optional-string field at `i`; a present empty string is
/// normalized to absent.
fn parse_optstr_field(s: &str, i: usize, name: &str) -> (r: Option<(Option<String>, usize)>)
    ensures
        r matches Some(p) ==> i <= p.1 <= s@.len() && normalized(opt_view(p.0)),
        forall|o: Option<Seq<char>>|
            (normalized(o) && i + field_rep(name@, optstr_rep(o)).len() <= s@.len() && s@.subrange(
                i as int,
                i as int + field_rep(name@, optstr_rep(o)).len(),
            ) == #[trigger] field_rep(name@, optstr_rep(o))) ==> (r matches Some(p) && opt_view(
                p.0,
            ) == o && p.1 == i + field_rep(name@, optstr_rep(o)).len()),
{
    let j = match expect_lit(s, i, name) {
        Some(j) => j,
        None => {
            proof {
                assert forall|o: Option<Seq<char>>|
                    !(i + field_rep(name@, optstr_rep(o)).len() <= s@.len() && s@.subrange(
                        i as int,
                        i as int + field_rep(name@, optstr_rep(o)).len(),
                    ) == #[trigger] field_rep(name@, optstr_rep(o))) by {
                    if i + field_rep(name@, optstr_rep(o)).len() <= s@.len() && s@.subrange(
                        i as int,
                        i as int + field_rep(name@, optstr_rep(o)).len(),
                    ) == field_rep(name@, optstr_rep(o)) {
                        lemma_field_parts(s@, i as int, name@, optstr_rep(o));
                    }
                }
            }
            return None;
        },
    };
    let j2 = match expect_char(s, j, '=') {
        Some(j2) => j2,
        None => {
            proof {
                assert forall|o: Option<Seq<char>>|
                    !(i + field_rep(name@, optstr_rep(o)).len() <= s@.len() && s@.subrange(
                        i as int,
                        i as int + field_rep(name@, optstr_rep(o)).len(),
                    ) == #[trigger] field_rep(name@, optstr_rep(o))) by {
                    if i + field_rep(name@, optstr_rep(o)).len() <= s@.len() && s@.subrange(
                        i as int,
                        i as int + field_rep(name@, optstr_rep(o)).len(),
                    ) == field_rep(name@, optstr_rep(o)) {
                        lemma_field_parts(s@, i as int, name@, optstr_rep(o));
                    }
                }
            }
            return None;
        },
    };
    match expect_char(s, j2, 'n') {
        Some(j3) => {
            let j4 = match expect_char(s, j3, ';') {
                Some(j4) => j4,
                None => {
                    proof {
                        assert forall|o: Option<Seq<char>>|
                            !(i + field_rep(name@, optstr_rep(o)).len() <= s@.len() && s@.subrange(
                                i as int,
                                i as int + field_rep(name@, optstr_rep(o)).len(),
                            ) == #[trigger] field_rep(name@, optstr_rep(o))) by {
                            if i + field_rep(name@, optstr_rep(o)).len() <= s@.len()
                                && s@.subrange(
                                i as int,
                                i as int + field_rep(name@, optstr_rep(o)).len(),
                            ) == field_rep(name@, optstr_rep(o)) {
                                lemma_field_parts(s@, i as int, name@, optstr_rep(o));
                            }
                        }
                    }
                    return None;
                },
            };
            proof {
                assert forall|o: Option<Seq<char>>|
                    (i + field_rep(name@, optstr_rep(o)).len() <= s@.len() && s@.subrange(
                        i as int,
                        i as int + field_rep(name@, optstr_rep(o)).len(),
                    ) == #[trigger] field_rep(name@, optstr_rep(o))) implies o is None && j4 == i
                    + field_rep(name@, optstr_rep(o)).len() by {
                    lemma_field_parts(s@, i as int, name@, optstr_rep(o));
                }
            }
            Some((None, j4))
        },
        None => {
            let j3 = match expect_char(s, j2, 's') {
                Some(j3) => j3,
                None => {
                    proof {
                        assert forall|o: Option<Seq<char>>|
                            !(i + field_rep(name@, optstr_rep(o)).len() <= s@.len() && s@.subrange(
                                i as int,
                                i as int + field_rep(name@, optstr_rep(o)).len(),
                            ) == #[trigger] field_rep(name@, optstr_rep(o))) by {
                            if i + field_rep(name@, optstr_rep(o)).len() <= s@.len()
                                && s@.subrange(
                                i as int,
                                i as int + field_rep(name@, optstr_rep(o)).len(),
                            ) == field_rep(name@, optstr_rep(o)) {
                                lemma_field_parts(s@, i as int, name@, optstr_rep(o));
                            }
                        }
                    }
                    return None;
                },
            };
            let (text, j4) = match parse_str(s, j3) {
                Some(p) => p,
                None => {
                    proof {
                        assert forall|o: Option<Seq<char>>|
                            !(i + field_rep(name@, optstr_rep(o)).len() <= s@.len() && s@.subrange(
                                i as int,
                                i as int + field_rep(name@, optstr_rep(o)).len(),
                            ) == #[trigger] field_rep(name@, optstr_rep(o))) by {
                            if i + field_rep(name@, optstr_rep(o)).len() <= s@.len()
                                && s@.subrange(
                                i as int,
                                i as int + field_rep(name@, optstr_rep(o)).len(),
                            ) == field_rep(name@, optstr_rep(o)) {
                                lemma_field_parts(s@, i as int, name@, optstr_rep(o));
                                if let Some(t) = o {
                                    assert(seq!['s'] + str_rep(t) + Seq::<char>::empty()
                                        =~= optstr_rep(o));
                                    lemma_chunk_at(
                                        s@,
                                        j2 as int,
                                        seq!['s'],
                                        str_rep(t),
                                        Seq::<char>::empty(),
                                    );
                                }
                            }
                        }
                    }
                    return None;
                },
            };
            let j5 = match expect_char(s, j4, ';') {
                Some(j5) => j5,
                None => {
                    proof {
                        assert forall|o: Option<Seq<char>>|
                            !(i + field_rep(name@, optstr_rep(o)).len() <= s@.len() && s@.subrange(
                                i as int,
                                i as int + field_rep(name@, optstr_rep(o)).len(),
                            ) == #[trigger] field_rep(name@, optstr_rep(o))) by {
                            if i + field_rep(name@, optstr_rep(o)).len() <= s@.len()
                                && s@.subrange(
                                i as int,
                                i as int + field_rep(name@, optstr_rep(o)).len(),
                            ) == field_rep(name@, optstr_rep(o)) {
                                lemma_field_parts(s@, i as int, name@, optstr_rep(o));
                                if let Some(t) = o {
                                    assert(seq!['s'] + str_rep(t) + Seq::<char>::empty()
                                        =~= optstr_rep(o));
                                    lemma_chunk_at(
                                        s@,
                                        j2 as int,
                                        seq!['s'],
                                        str_rep(t),
                                        Seq::<char>::empty(),
                                    );
                                }
                            }
                        }
                    }
                    return None;
                },
            };
            let value = if text.as_str().unicode_len() == 0 {
                None
            } else {
                Some(text)
            };
            proof {
                assert forall|o: Option<Seq<char>>|
                    (normalized(o) && i + field_rep(name@, optstr_rep(o)).len() <= s@.len()
                        && s@.subrange(
                        i as int,
                        i as int + field_rep(name@, optstr_rep(o)).len(),
                    ) == #[trigger] field_rep(name@, optstr_rep(o))) implies opt_view(value) == o
                    && j5 == i + field_rep(name@, optstr_rep(o)).len() by {
                    lemma_field_parts(s@, i as int, name@, optstr_rep(o));
                    if let Some(t) = o {
                        assert(seq!['s'] + str_rep(t) + Seq::<char>::empty() =~= optstr_rep(o));
                        lemma_chunk_at(s@, j2 as int, seq!['s'], str_rep(t), Seq::<char>::empty());
                    }
                }
            }
            Some((value, j5))
        },
    }
}


/// `key_list_rep` of a suffix unrolls one key at a time.
proof fn lemma_key_list_skip(ks: Seq<KeyView>, m: int)
    requires
        0 <= m < ks.len(),
    ensures
        key_list_rep(ks.skip(m)) == key_rep(ks[m]) + key_list_rep(ks.skip(m + 1)),
{
    assert(ks.skip(m)[0] == ks[m]);
    assert(ks.skip(m).drop_first() =~= ks.skip(m + 1));
}

/// `key_list_rep` splits at any position.
proof fn lemma_key_list_split(ks: Seq<KeyView>, m: int)
    requires
        0 <= m <= ks.len(),
    ensures
        key_list_rep(ks) == key_list_rep(ks.take(m)) + key_list_rep(ks.skip(m)),
    decreases m,
{
    if m == 0 {
        assert(ks.take(0) =~= Seq::<KeyView>::empty());
        assert(ks.skip(0) =~= ks);
        assert(key_list_rep(Seq::<KeyView>::empty()) + key_list_rep(ks) =~= key_list_rep(ks));
    } else {
        lemma_key_list_split(ks, m - 1);
        lemma_key_list_skip(ks, m - 1);
        assert(ks.take(m) =~= ks.take(m - 1).push(ks[m - 1]));
        lemma_key_list_rep_push(ks.take(m - 1), ks[m - 1]);
        assert(key_list_rep(ks.take(m - 1)) + (key_rep(ks[m - 1]) + key_list_rep(ks.skip(m)))
            =~= (key_list_rep(ks.take(m - 1)) + key_rep(ks[m - 1])) + key_list_rep(ks.skip(m)));
    }
}

/// Every key takes at least one character, so a list never holds more
/// keys than its form has characters.
proof fn lemma_key_list_len(ks: Seq<KeyView>)
    ensures
        key_list_rep(ks).len() >= ks.len(),
    decreases ks.len(),
{
    if ks.len() > 0 {
        lemma_key_list_len(ks.drop_first());
    }
}

/// Read one child-list field `name=count keys...;` at `i`.
#[verifier::loop_isolation(false)]
#[verifier::rlimit(100)]
#[verifier::spinoff_prover]
fn parse_children_field(s: &str, i: usize, name: &str) -> (r: Option<(Vec<CacheKey>, usize)>)
    ensures
        r matches Some(p) ==> i <= p.1 <= s@.len(),
        forall|ks: Seq<KeyView>|
            (i + field_rep(name@, children_rep(ks)).len() <= s@.len() && s@.subrange(
                i as int,
                i as int + field_rep(name@, children_rep(ks)).len(),
            ) == #[trigger] field_rep(name@, children_rep(ks))) ==> (r matches Some(p)
                && p.0.deep_view() == ks && p.1 == i + field_rep(name@, children_rep(ks)).len()),
{
    let slen = s.unicode_len();
    let j = match expect_lit(s, i, name) {
        Some(j) => j,
        None => {
            proof {
                assert forall|ks: Seq<KeyView>|
                    !(i + field_rep(name@, children_rep(ks)).len() <= s@.len() && s@.subrange(
                        i as int,
                        i as int + field_rep(name@, children_rep(ks)).len(),
                    ) == #[trigger] field_rep(name@, children_rep(ks))) by {
                    if i + field_rep(name@, children_rep(ks)).len() <= s@.len() && s@.subrange(
                        i as int,
                        i as int + field_rep(name@, children_rep(ks)).len(),
                    ) == field_rep(name@, children_rep(ks)) {
                        lemma_field_parts(s@, i as int, name@, children_rep(ks));
                    }
                }
            }
            return None;
        },
    };
    let j2 = match expect_char(s, j, '=') {
        Some(j2) => j2,
        None => {
            proof {
                assert forall|ks: Seq<KeyView>|
                    !(i + field_rep(name@, children_rep(ks)).len() <= s@.len() && s@.subrange(
                        i as int,
                        i as int + field_rep(name@, children_rep(ks)).len(),
                    ) == #[trigger] field_rep(name@, children_rep(ks))) by {
                    if i + field_rep(name@, children_rep(ks)).len() <= s@.len() && s@.subrange(
                        i as int,
                        i as int + field_rep(name@, children_rep(ks)).len(),
                    ) == field_rep(name@, children_rep(ks)) {
                        lemma_field_parts(s@, i as int, name@, children_rep(ks));
                    }
                }
            }
            return None;
        },
    };
    let (count, j3) = match parse_hex(s, j2) {
        Some(p) => p,
        None => {
            proof {
                assert forall|ks: Seq<KeyView>|
                    !(i + field_rep(name@, children_rep(ks)).len() <= s@.len() && s@.subrange(
                        i as int,
                        i as int + field_rep(name@, children_rep(ks)).len(),
                    ) == #[trigger] field_rep(name@, children_rep(ks))) by {
                    if i + field_rep(name@, children_rep(ks)).len() <= s@.len() && s@.subrange(
                        i as int,
                        i as int + field_rep(name@, children_rep(ks)).len(),
                    ) == field_rep(name@, children_rep(ks)) {
                        lemma_field_parts(s@, i as int, name@, children_rep(ks));
                        assert(Seq::<char>::empty() + hex_rep(ks.len() as u64) + key_list_rep(ks)
                            =~= children_rep(ks));
                        lemma_chunk_at(
                            s@,
                            j2 as int,
                            Seq::<char>::empty(),
                            hex_rep(ks.len() as u64),
                            key_list_rep(ks),
                        );
                        assert(s@.subrange(j2 as int, j2 as int + 16) == hex_rep(ks.len() as u64));
                    }
                }
            }
            return None;
        },
    };
    let mut out: Vec<CacheKey> = Vec::new();
    let mut m: u64 = 0;
    let mut pos: usize = j3;
    proof {
        assert forall|ks: Seq<KeyView>|
            (i + field_rep(name@, children_rep(ks)).len() <= s@.len() && s@.subrange(
                i as int,
                i as int + field_rep(name@, children_rep(ks)).len(),
            ) == #[trigger] field_rep(name@, children_rep(ks))) implies (count == ks.len()
            && out.deep_view() == ks.take(0) && pos as int == j3 + key_list_rep(
            ks.take(0),
        ).len()) by {
            lemma_field_parts(s@, i as int, name@, children_rep(ks));
            assert(Seq::<char>::empty() + hex_rep(ks.len() as u64) + key_list_rep(ks)
                =~= children_rep(ks));
            lemma_chunk_at(
                s@,
                j2 as int,
                Seq::<char>::empty(),
                hex_rep(ks.len() as u64),
                key_list_rep(ks),
            );
            assert(s@.subrange(j2 as int, j2 as int + 16) == hex_rep(ks.len() as u64));
            lemma_key_list_len(ks);
            assert(ks.len() <= key_list_rep(ks).len());
            assert(children_rep(ks).len() <= s@.len());
            assert(s@.len() <= usize::MAX);
            assert(ks.len() <= u64::MAX);
            assert(count == ks.len() as u64);
            assert(count == ks.len());
            assert(ks.take(0) =~= Seq::<KeyView>::empty());
            assert(out.deep_view() =~= ks.take(0));
            assert(key_list_rep(ks.take(0)) =~= Seq::<char>::empty());
        }
    }
    while m < count
        invariant
            slen == s@.len(),
            j2 == j3 - 16,
            m <= count,
            out@.len() == m as int,
            i <= pos <= slen,
            forall|ks: Seq<KeyView>|
                (i + field_rep(name@, children_rep(ks)).len() <= s@.len() && s@.subrange(
                    i as int,
                    i as int + field_rep(name@, children_rep(ks)).len(),
                ) == #[trigger] field_rep(name@, children_rep(ks))) ==> (count == ks.len()
                    && out.deep_view() == ks.take(m as int) && pos as int == j3 + key_list_rep(
                    ks.take(m as int),
                ).len()),
        decreases count - m,
    {
        let (key, npos) = match parse_key(s, pos) {
            Some(p) => p,
            None => {
                proof {
                    assert forall|ks: Seq<KeyView>|
                        !(i + field_rep(name@, children_rep(ks)).len() <= s@.len() && s@.subrange(
                            i as int,
                            i as int + field_rep(name@, children_rep(ks)).len(),
                        ) == #[trigger] field_rep(name@, children_rep(ks))) by {
                        if i + field_rep(name@, children_rep(ks)).len() <= s@.len() && s@.subrange(
                            i as int,
                            i as int + field_rep(name@, children_rep(ks)).len(),
                        ) == field_rep(name@, children_rep(ks)) {
                            lemma_field_parts(s@, i as int, name@, children_rep(ks));
                            lemma_key_list_split(ks, m as int);
                            lemma_key_list_skip(ks, m as int);
                            assert(key_list_rep(ks) == key_list_rep(ks.take(m as int)) + (key_rep(
                                ks[m as int],
                            ) + key_list_rep(ks.skip(m as int + 1))));
                            assert((hex_rep(ks.len() as u64) + key_list_rep(ks.take(m as int)))
                                + key_rep(ks[m as int]) + key_list_rep(ks.skip(m as int + 1))
                                =~= children_rep(ks));
                            assert(j2 == i + name@.len() + 1);
                            assert(s@.subrange(j2 as int, j2 as int + children_rep(ks).len())
                                == children_rep(ks));
                            assert(j2 as int + children_rep(ks).len() <= s@.len());
                            lemma_chunk_at(
                                s@,
                                j2 as int,
                                hex_rep(ks.len() as u64) + key_list_rep(ks.take(m as int)),
                                key_rep(ks[m as int]),
                                key_list_rep(ks.skip(m as int + 1)),
                            );
                            assert(j2 as int + (hex_rep(ks.len() as u64) + key_list_rep(
                                ks.take(m as int),
                            )).len() == pos as int);
                            assert(pos as int + key_rep(ks[m as int]).len() <= s@.len());
                            assert(s@.subrange(
                                pos as int,
                                pos as int + key_rep(ks[m as int]).len(),
                            ) == key_rep(ks[m as int]));
                        }
                    }
                }
                return None;
            },
        };
        out.push(key);
        proof {
            assert forall|ks: Seq<KeyView>|
                (i + field_rep(name@, children_rep(ks)).len() <= s@.len() && s@.subrange(
                    i as int,
                    i as int + field_rep(name@, children_rep(ks)).len(),
                ) == #[trigger] field_rep(name@, children_rep(ks))) implies (out.deep_view()
                == ks.take(m as int + 1) && npos as int == j3 + key_list_rep(
                ks.take(m as int + 1),
            ).len()) by {
                lemma_field_parts(s@, i as int, name@, children_rep(ks));
                lemma_key_list_split(ks, m as int);
                lemma_key_list_skip(ks, m as int);
                assert(key_list_rep(ks) == key_list_rep(ks.take(m as int)) + (key_rep(
                    ks[m as int],
                ) + key_list_rep(ks.skip(m as int + 1))));
                assert((hex_rep(ks.len() as u64) + key_list_rep(ks.take(m as int))) + key_rep(
                    ks[m as int],
                ) + key_list_rep(ks.skip(m as int + 1)) =~= children_rep(ks));
                assert(j2 == i + name@.len() + 1);
                assert(s@.subrange(j2 as int, j2 as int + children_rep(ks).len())
                    == children_rep(ks));
                assert(j2 as int + children_rep(ks).len() <= s@.len());
                lemma_chunk_at(
                    s@,
                    j2 as int,
                    hex_rep(ks.len() as u64) + key_list_rep(ks.take(m as int)),
                    key_rep(ks[m as int]),
                    key_list_rep(ks.skip(m as int + 1)),
                );
                assert(j2 as int + (hex_rep(ks.len() as u64) + key_list_rep(
                    ks.take(m as int),
                )).len() == pos as int);
                assert(pos as int + key_rep(ks[m as int]).len() <= s@.len());
                assert(s@.subrange(pos as int, pos as int + key_rep(ks[m as int]).len())
                    == key_rep(ks[m as int]));
                assert(key@ == ks[m as int]);
                assert(ks.take(m as int + 1) =~= ks.take(m as int).push(ks[m as int]));
                lemma_key_list_rep_push(ks.take(m as int), ks[m as int]);
                assert(out.deep_view() =~= ks.take(m as int + 1));
            }
        }
        pos = npos;
        m = m + 1;
    }
    let j5 = match expect_char(s, pos, ';') {
        Some(j5) => j5,
        None => {
            proof {
                assert forall|ks: Seq<KeyView>|
                    !(i + field_rep(name@, children_rep(ks)).len() <= s@.len() && s@.subrange(
                        i as int,
                        i as int + field_rep(name@, children_rep(ks)).len(),
                    ) == #[trigger] field_rep(name@, children_rep(ks))) by {
                    if i + field_rep(name@, children_rep(ks)).len() <= s@.len() && s@.subrange(
                        i as int,
                        i as int + field_rep(name@, children_rep(ks)).len(),
                    ) == field_rep(name@, children_rep(ks)) {
                        lemma_field_parts(s@, i as int, name@, children_rep(ks));
                        assert(ks.take(ks.len() as int) =~= ks);
                    }
                }
            }
            return None;
        },
    };
    proof {
        assert forall|ks: Seq<KeyView>|
            (i + field_rep(name@, children_rep(ks)).len() <= s@.len() && s@.subrange(
                i as int,
                i as int + field_rep(name@, children_rep(ks)).len(),
            ) == #[trigger] field_rep(name@, children_rep(ks))) implies (out.deep_view() == ks
            && j5 == i + field_rep(name@, children_rep(ks)).len()) by {
            lemma_field_parts(s@, i as int, name@, children_rep(ks));
            assert(ks.take(ks.len() as int) =~= ks);
        }
    }
    Some((out, j5))
}

/// Walk one chunk of a tail window: the chunk stands at `pos` and the
/// rest of the window follows it.
proof fn lemma_tail_step(s: Seq<char>, pos: int, chunk: Seq<char>, tail: Seq<char>, whole: Seq<char>)
    requires
        0 <= pos,
        whole == chunk + tail,
        pos + whole.len() == s.len(),
        s.subrange(pos, s.len() as int) == whole,
    ensures
        pos + chunk.len() <= s.len(),
        s.subrange(pos, pos + chunk.len()) == chunk,
        pos + chunk.len() + tail.len() == s.len(),
        s.subrange(pos + chunk.len(), s.len() as int) == tail,
{
    assert(Seq::<char>::empty() + chunk + tail =~= whole);
    lemma_chunk_at(s, pos, Seq::<char>::empty(), chunk, tail);
    assert(chunk + tail + Seq::<char>::empty() =~= whole);
    lemma_chunk_at(s, pos, chunk, tail, Seq::<char>::empty());
}

/// Read one item back from its textual form. Whenever the input is the
/// form of some well-formed item, exactly that item comes back: together
/// with the writer's contract, serializing any item and parsing the text
/// again yields the item with empty strings normalized to absent.
#[verifier::rlimit(100)]
#[verifier::spinoff_prover]
pub fn parse_item(s: &str) -> (r: Option<CacheItem>)
    ensures
        r matches Some(item) ==> item@.wf(),
        forall|v: ItemView|
            (v.wf() && s@ == #[trigger] item_rep(v)) ==> (r matches Some(item) && item@ == v),
{
    let p0: usize = 0;
    let (obj, p1) = match parse_key_field(s, p0, "object") {
        Some(p) => p,
        None => {
            proof {
                assert forall|v: ItemView| !(v.wf() && s@ == #[trigger] item_rep(v)) by {
                    if v.wf() && s@ == item_rep(v) {
                        assert(s@.subrange(0, s@.len() as int) =~= item_rep(v));
                        lemma_tail_step(s@, p0 as int, field_rep("object"@, key_rep(v.object)), rep_from_app(v), item_rep(v));
                    }
                }
            }
            return None;
        },
    };
    proof {
        assert forall|v: ItemView| (v.wf() && s@ == #[trigger] item_rep(v)) implies (obj@ == v.object && p1 as int + rep_from_app(v).len() == s@.len() && s@.subrange(p1 as int, s@.len() as int) == rep_from_app(v) && p1 == p0 as int + field_rep("object"@, key_rep(v.object)).len()) by {
            assert(s@.subrange(0, s@.len() as int) =~= item_rep(v));
            lemma_tail_step(s@, p0 as int, field_rep("object"@, key_rep(v.object)), rep_from_app(v), item_rep(v));
        }
    }
    let (appv, p2) = match parse_key_field(s, p1, "app") {
        Some(p) => p,
        None => {
            proof {
                assert forall|v: ItemView| !(v.wf() && s@ == #[trigger] item_rep(v)) by {
                    if v.wf() && s@ == item_rep(v) {
                        reveal(rep_from_app);
                        lemma_tail_step(s@, p1 as int, field_rep("app"@, key_rep(v.app)), rep_from_parent(v), rep_from_app(v));
                    }
                }
            }
            return None;
        },
    };
    proof {
        assert forall|v: ItemView| (v.wf() && s@ == #[trigger] item_rep(v)) implies (obj@ == v.object && appv@ == v.app && p2 as int + rep_from_parent(v).len() == s@.len() && s@.subrange(p2 as int, s@.len() as int) == rep_from_parent(v) && p2 == p1 as int + field_rep("app"@, key_rep(v.app)).len()) by {
            reveal(rep_from_app);
            lemma_tail_step(s@, p1 as int, field_rep("app"@, key_rep(v.app)), rep_from_parent(v), rep_from_app(v));
        }
    }
    let (parv, p3) = match parse_key_field(s, p2, "parent") {
        Some(p) => p,
        None => {
            proof {
                assert forall|v: ItemView| !(v.wf() && s@ == #[trigger] item_rep(v)) by {
                    if v.wf() && s@ == item_rep(v) {
                        reveal(rep_from_parent);
                        lemma_tail_step(s@, p2 as int, field_rep("parent"@, key_rep(v.parent)), rep_from_index(v), rep_from_parent(v));
                    }
                }
            }
            return None;
        },
    };
    proof {
        assert forall|v: ItemView| (v.wf() && s@ == #[trigger] item_rep(v)) implies (obj@ == v.object && appv@ == v.app && parv@ == v.parent && p3 as int + rep_from_index(v).len() == s@.len() && s@.subrange(p3 as int, s@.len() as int) == rep_from_index(v) && p3 == p2 as int + field_rep("parent"@, key_rep(v.parent)).len()) by {
            reveal(rep_from_parent);
            lemma_tail_step(s@, p2 as int, field_rep("parent"@, key_rep(v.parent)), rep_from_index(v), rep_from_parent(v));
        }
    }
    let (idxv, p4) = match parse_optnum_field(s, p3, "index") {
        Some(p) => p,
        None => {
            proof {
                assert forall|v: ItemView| !(v.wf() && s@ == #[trigger] item_rep(v)) by {
                    if v.wf() && s@ == item_rep(v) {
                        reveal(rep_from_index);
                        lemma_tail_step(s@, p3 as int, field_rep("index"@, optnum_rep(v.index)), rep_from_children_num(v), rep_from_index(v));
                    }
                }
            }
            return None;
        },
    };
    proof {
        assert forall|v: ItemView| (v.wf() && s@ == #[trigger] item_rep(v)) implies (obj@ == v.object && appv@ == v.app && parv@ == v.parent && idxv == v.index && p4 as int + rep_from_children_num(v).len() == s@.len() && s@.subrange(p4 as int, s@.len() as int) == rep_from_children_num(v) && p4 == p3 as int + field_rep("index"@, optnum_rep(v.index)).len()) by {
            reveal(rep_from_index);
            lemma_tail_step(s@, p3 as int, field_rep("index"@, optnum_rep(v.index)), rep_from_children_num(v), rep_from_index(v));
        }
    }
    let (cnv, p5) = match parse_optnum_field(s, p4, "children_num") {
        Some(p) => p,
        None => {
            proof {
                assert forall|v: ItemView| !(v.wf() && s@ == #[trigger] item_rep(v)) by {
                    if v.wf() && s@ == item_rep(v) {
                        reveal(rep_from_children_num);
                        lemma_tail_step(s@, p4 as int, field_rep("children_num"@, optnum_rep(v.children_num)), rep_from_children(v), rep_from_children_num(v));
                    }
                }
            }
            return None;
        },
    };
    proof {
        assert forall|v: ItemView| (v.wf() && s@ == #[trigger] item_rep(v)) implies (obj@ == v.object && appv@ == v.app && parv@ == v.parent && idxv == v.index && cnv == v.children_num && p5 as int + rep_from_children(v).len() == s@.len() && s@.subrange(p5 as int, s@.len() as int) == rep_from_children(v) && p5 == p4 as int + field_rep("children_num"@, optnum_rep(v.children_num)).len()) by {
            reveal(rep_from_children_num);
            lemma_tail_step(s@, p4 as int, field_rep("children_num"@, optnum_rep(v.children_num)), rep_from_children(v), rep_from_children_num(v));
        }
    }
    let (chv, p6) = match parse_children_field(s, p5, "children") {
        Some(p) => p,
        None => {
            proof {
                assert forall|v: ItemView| !(v.wf() && s@ == #[trigger] item_rep(v)) by {
                    if v.wf() && s@ == item_rep(v) {
                        reveal(rep_from_children);
                        lemma_tail_step(s@, p5 as int, field_rep("children"@, children_rep(v.children)), rep_from_interfaces(v), rep_from_children(v));
                    }
                }
            }
            return None;
        },
    };
    proof {
        assert forall|v: ItemView| (v.wf() && s@ == #[trigger] item_rep(v)) implies (obj@ == v.object && appv@ == v.app && parv@ == v.parent && idxv == v.index && cnv == v.children_num && chv.deep_view() == v.children && p6 as int + rep_from_interfaces(v).len() == s@.len() && s@.subrange(p6 as int, s@.len() as int) == rep_from_interfaces(v) && p6 == p5 as int + field_rep("children"@, children_rep(v.children)).len()) by {
            reveal(rep_from_children);
            lemma_tail_step(s@, p5 as int, field_rep("children"@, children_rep(v.children)), rep_from_interfaces(v), rep_from_children(v));
        }
    }
    let (ifcv, p7) = match parse_num_field(s, p6, "interfaces") {
        Some(p) => p,
        None => {
            proof {
                assert forall|v: ItemView| !(v.wf() && s@ == #[trigger] item_rep(v)) by {
                    if v.wf() && s@ == item_rep(v) {
                        reveal(rep_from_interfaces);
                        lemma_tail_step(s@, p6 as int, field_rep("interfaces"@, hex_rep(v.interfaces as u64)), rep_from_role(v), rep_from_interfaces(v));
                    }
                }
            }
            return None;
        },
    };
    proof {
        assert forall|v: ItemView| (v.wf() && s@ == #[trigger] item_rep(v)) implies (obj@ == v.object && appv@ == v.app && parv@ == v.parent && idxv == v.index && cnv == v.children_num && chv.deep_view() == v.children && ifcv == v.interfaces as u64 && p7 as int + rep_from_role(v).len() == s@.len() && s@.subrange(p7 as int, s@.len() as int) == rep_from_role(v) && p7 == p6 as int + field_rep("interfaces"@, hex_rep(v.interfaces as u64)).len()) by {
            reveal(rep_from_interfaces);
            lemma_tail_step(s@, p6 as int, field_rep("interfaces"@, hex_rep(v.interfaces as u64)), rep_from_role(v), rep_from_interfaces(v));
        }
    }
    if ifcv > u32::MAX as u64 {
        proof {
            assert forall|v: ItemView| !(v.wf() && s@ == #[trigger] item_rep(v)) by {
                if v.wf() && s@ == item_rep(v) {
                    assert(ifcv == v.interfaces as u64);
                }
            }
        }
        return None;
    }
    let (rolv, p8) = match parse_num_field(s, p7, "role") {
        Some(p) => p,
        None => {
            proof {
                assert forall|v: ItemView| !(v.wf() && s@ == #[trigger] item_rep(v)) by {
                    if v.wf() && s@ == item_rep(v) {
                        reveal(rep_from_role);
                        lemma_tail_step(s@, p7 as int, field_rep("role"@, hex_rep(v.role as u64)), rep_from_states(v), rep_from_role(v));
                    }
                }
            }
            return None;
        },
    };
    proof {
        assert forall|v: ItemView| (v.wf() && s@ == #[trigger] item_rep(v)) implies (obj@ == v.object && appv@ == v.app && parv@ == v.parent && idxv == v.index && cnv == v.children_num && chv.deep_view() == v.children && ifcv == v.interfaces as u64 && rolv == v.role as u64 && p8 as int + rep_from_states(v).len() == s@.len() && s@.subrange(p8 as int, s@.len() as int) == rep_from_states(v) && p8 == p7 as int + field_rep("role"@, hex_rep(v.role as u64)).len()) by {
            reveal(rep_from_role);
            lemma_tail_step(s@, p7 as int, field_rep("role"@, hex_rep(v.role as u64)), rep_from_states(v), rep_from_role(v));
        }
    }
    if rolv > u32::MAX as u64 {
        proof {
            assert forall|v: ItemView| !(v.wf() && s@ == #[trigger] item_rep(v)) by {
                if v.wf() && s@ == item_rep(v) {
                    assert(rolv == v.role as u64);
                }
            }
        }
        return None;
    }
    let (stav, p9) = match parse_num_field(s, p8, "states") {
        Some(p) => p,
        None => {
            proof {
                assert forall|v: ItemView| !(v.wf() && s@ == #[trigger] item_rep(v)) by {
                    if v.wf() && s@ == item_rep(v) {
                        reveal(rep_from_states);
                        lemma_tail_step(s@, p8 as int, field_rep("states"@, hex_rep(v.states)), rep_from_name(v), rep_from_states(v));
                    }
                }
            }
            return None;
        },
    };
    proof {
        assert forall|v: ItemView| (v.wf() && s@ == #[trigger] item_rep(v)) implies (obj@ == v.object && appv@ == v.app && parv@ == v.parent && idxv == v.index && cnv == v.children_num && chv.deep_view() == v.children && ifcv == v.interfaces as u64 && rolv == v.role as u64 && stav == v.states && p9 as int + rep_from_name(v).len() == s@.len() && s@.subrange(p9 as int, s@.len() as int) == rep_from_name(v) && p9 == p8 as int + field_rep("states"@, hex_rep(v.states)).len()) by {
            reveal(rep_from_states);
            lemma_tail_step(s@, p8 as int, field_rep("states"@, hex_rep(v.states)), rep_from_name(v), rep_from_states(v));
        }
    }
    let (namv, p10) = match parse_optstr_field(s, p9, "name") {
        Some(p) => p,
        None => {
            proof {
                assert forall|v: ItemView| !(v.wf() && s@ == #[trigger] item_rep(v)) by {
                    if v.wf() && s@ == item_rep(v) {
                        reveal(rep_from_name);
                        lemma_tail_step(s@, p9 as int, field_rep("name"@, optstr_rep(v.name)), rep_from_description(v), rep_from_name(v));
                    }
                }
            }
            return None;
        },
    };
    proof {
        assert forall|v: ItemView| (v.wf() && s@ == #[trigger] item_rep(v)) implies (obj@ == v.object && appv@ == v.app && parv@ == v.parent && idxv == v.index && cnv == v.children_num && chv.deep_view() == v.children && ifcv == v.interfaces as u64 && rolv == v.role as u64 && stav == v.states && opt_view(namv) == v.name && p10 as int + rep_from_description(v).len() == s@.len() && s@.subrange(p10 as int, s@.len() as int) == rep_from_description(v) && p10 == p9 as int + field_rep("name"@, optstr_rep(v.name)).len()) by {
            reveal(rep_from_name);
            lemma_tail_step(s@, p9 as int, field_rep("name"@, optstr_rep(v.name)), rep_from_description(v), rep_from_name(v));
        }
    }
    let (desv, p11) = match parse_optstr_field(s, p10, "description") {
        Some(p) => p,
        None => {
            proof {
                assert forall|v: ItemView| !(v.wf() && s@ == #[trigger] item_rep(v)) by {
                    if v.wf() && s@ == item_rep(v) {
                        reveal(rep_from_description);
                        lemma_tail_step(s@, p10 as int, field_rep("description"@, optstr_rep(v.description)), rep_from_help_text(v), rep_from_description(v));
                    }
                }
            }
            return None;
        },
    };
    proof {
        assert forall|v: ItemView| (v.wf() && s@ == #[trigger] item_rep(v)) implies (obj@ == v.object && appv@ == v.app && parv@ == v.parent && idxv == v.index && cnv == v.children_num && chv.deep_view() == v.children && ifcv == v.interfaces as u64 && rolv == v.role as u64 && stav == v.states && opt_view(namv) == v.name && opt_view(desv) == v.description && p11 as int + rep_from_help_text(v).len() == s@.len() && s@.subrange(p11 as int, s@.len() as int) == rep_from_help_text(v) && p11 == p10 as int + field_rep("description"@, optstr_rep(v.description)).len()) by {
            reveal(rep_from_description);
            lemma_tail_step(s@, p10 as int, field_rep("description"@, optstr_rep(v.description)), rep_from_help_text(v), rep_from_description(v));
        }
    }
    let (hlpv, p12) = match parse_optstr_field(s, p11, "help_text") {
        Some(p) => p,
        None => {
            proof {
                assert forall|v: ItemView| !(v.wf() && s@ == #[trigger] item_rep(v)) by {
                    if v.wf() && s@ == item_rep(v) {
                        reveal(rep_from_help_text);
                        lemma_tail_step(s@, p11 as int, field_rep("help_text"@, optstr_rep(v.help_text)), rep_from_text(v), rep_from_help_text(v));
                    }
                }
            }
            return None;
        },
    };
    proof {
        assert forall|v: ItemView| (v.wf() && s@ == #[trigger] item_rep(v)) implies (obj@ == v.object && appv@ == v.app && parv@ == v.parent && idxv == v.index && cnv == v.children_num && chv.deep_view() == v.children && ifcv == v.interfaces as u64 && rolv == v.role as u64 && stav == v.states && opt_view(namv) == v.name && opt_view(desv) == v.description && opt_view(hlpv) == v.help_text && p12 as int + rep_from_text(v).len() == s@.len() && s@.subrange(p12 as int, s@.len() as int) == rep_from_text(v) && p12 == p11 as int + field_rep("help_text"@, optstr_rep(v.help_text)).len()) by {
            reveal(rep_from_help_text);
            lemma_tail_step(s@, p11 as int, field_rep("help_text"@, optstr_rep(v.help_text)), rep_from_text(v), rep_from_help_text(v));
        }
    }
    let (texv, p13) = match parse_optstr_field(s, p12, "text") {
        Some(p) => p,
        None => {
            proof {
                assert forall|v: ItemView| !(v.wf() && s@ == #[trigger] item_rep(v)) by {
                    if v.wf() && s@ == item_rep(v) {
                        reveal(rep_from_text);
                        assert(field_rep("text"@, optstr_rep(v.text)) + Seq::<char>::empty() =~= rep_from_text(v));
                        lemma_tail_step(s@, p12 as int, field_rep("text"@, optstr_rep(v.text)), Seq::<char>::empty(), rep_from_text(v));
                    }
                }
            }
            return None;
        },
    };
    proof {
        assert forall|v: ItemView| (v.wf() && s@ == #[trigger] item_rep(v)) implies (obj@ == v.object && appv@ == v.app && parv@ == v.parent && idxv == v.index && cnv == v.children_num && chv.deep_view() == v.children && ifcv == v.interfaces as u64 && rolv == v.role as u64 && stav == v.states && opt_view(namv) == v.name && opt_view(desv) == v.description && opt_view(hlpv) == v.help_text && opt_view(texv) == v.text && p13 == p12 as int + field_rep("text"@, optstr_rep(v.text)).len()) by {
            reveal(rep_from_text);
            assert(field_rep("text"@, optstr_rep(v.text)) + Seq::<char>::empty() =~= rep_from_text(v));
            lemma_tail_step(s@, p12 as int, field_rep("text"@, optstr_rep(v.text)), Seq::<char>::empty(), rep_from_text(v));
        }
    }
    let item = CacheItem {
        object: obj,
        app: appv,
        parent: parv,
        index: idxv,
        children_num: cnv,
        interfaces: ifcv as u32,
        role: rolv as u32,
        states: stav,
        children: chv,
        name: namv,
        description: desv,
        help_text: hlpv,
        text: texv,
    };
    proof {
        assert forall|v: ItemView| (v.wf() && s@ == #[trigger] item_rep(v)) implies item@ == v by {
            assert(item@ =~= v);
        }
    }
    Some(item)
}

} // verus!
