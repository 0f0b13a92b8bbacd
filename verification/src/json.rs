//! The JSON values this client builds as request bodies and reads out of
//! response bodies, together with a verified serializer and parser.
//!
//! Serialization is specified by [`ser`]: compact JSON with the `"`, `\`
//! and control characters escaped, and integers in canonical decimal.
//! The parser is proved to invert the serializer (see [`parse_json`]),
//! which is the round-trip guarantee for every request body. Beyond the
//! texts that proof speaks of, the parser accepts insignificant
//! whitespace between tokens, the common string escapes, and every
//! number of the JSON grammar — one that is no 64-bit integer is
//! carried verbatim as its lexeme and reserialized unchanged.

use vstd::prelude::*;

use crate::text::chars_to_string;
use crate::text::str_chars;

verus! {

broadcast use vstd::seq::group_seq_axioms, vstd::std_specs::vec::group_vec_axioms;

/// A JSON value. Every number this client writes is a 64-bit integer
/// (`Int`); a number read back that is no such integer — a fraction, an
/// exponent form, or one out of range — is carried verbatim as its
/// lexeme (`Num`).
pub enum Json {
    Null,
    Bool(bool),
    Int(i64),
    Num(String),
    Text(String),
    Arr(Vec<Json>),
    Obj(Vec<(String, Json)>),
}

/// The mathematical form of a JSON value, used by every contract.
pub enum JsonV {
    Null,
    Bool(bool),
    Int(i64),
    Num(Seq<char>),
    Text(Seq<char>),
    Arr(Seq<JsonV>),
    Obj(Seq<(Seq<char>, JsonV)>),
}

/// The mathematical form of an executable JSON value.
pub open spec fn json_view(j: Json) -> JsonV
    decreases j,
{
    match j {
        Json::Null => JsonV::Null,
        Json::Bool(b) => JsonV::Bool(b),
        Json::Int(n) => JsonV::Int(n),
        Json::Num(t) => JsonV::Num(t@),
        Json::Text(t) => JsonV::Text(t@),
        Json::Arr(items) => JsonV::Arr(json_views(items@)),
        Json::Obj(fields) => JsonV::Obj(json_field_views(fields@)),
    }
}

/// The mathematical form of a sequence of executable JSON values.
pub open spec fn json_views(items: Seq<Json>) -> Seq<JsonV>
    decreases items,
{
    if items.len() == 0 {
        Seq::<JsonV>::empty()
    } else {
        seq![json_view(items[0])] + json_views(items.subrange(1, items.len() as int))
    }
}

/// The mathematical form of a sequence of executable JSON object members.
pub open spec fn json_field_views(fields: Seq<(String, Json)>) -> Seq<(Seq<char>, JsonV)>
    decreases fields,
{
    if fields.len() == 0 {
        Seq::<(Seq<char>, JsonV)>::empty()
    } else {
        seq![(fields[0].0@, json_view(fields[0].1))] + json_field_views(
            fields.subrange(1, fields.len() as int),
        )
    }
}

impl View for Json {
    type V = JsonV;

    open spec fn view(&self) -> JsonV {
        json_view(*self)
    }
}

/// `json_views` maps the view pointwise.
pub proof fn lemma_json_views_index(s: Seq<Json>)
    ensures
        json_views(s).len() == s.len(),
        forall|i: int| 0 <= i < s.len() ==> json_views(s)[i] == json_view(s[i]),
    decreases s.len(),
{
    if s.len() > 0 {
        lemma_json_views_index(s.subrange(1, s.len() as int));
        assert forall|i: int| 0 <= i < s.len() implies json_views(s)[i] == json_view(s[i]) by {
            if i > 0 {
                assert(s.subrange(1, s.len() as int)[i - 1] == s[i]);
            }
        }
    }
}

/// `json_field_views` maps the view pointwise.
pub proof fn lemma_json_field_views_index(s: Seq<(String, Json)>)
    ensures
        json_field_views(s).len() == s.len(),
        forall|i: int|
            0 <= i < s.len() ==> json_field_views(s)[i] == (s[i].0@, json_view(s[i].1)),
    decreases s.len(),
{
    if s.len() > 0 {
        lemma_json_field_views_index(s.subrange(1, s.len() as int));
        assert forall|i: int|
            0 <= i < s.len() implies json_field_views(s)[i] == (s[i].0@, json_view(s[i].1)) by {
            if i > 0 {
                assert(s.subrange(1, s.len() as int)[i - 1] == s[i]);
            }
        }
    }
}


/// Nesting depth of a JSON value, the termination measure for the
/// executable serializer and parser.
pub open spec fn depth(v: JsonV) -> nat
    decreases v,
{
    match v {
        JsonV::Arr(items) => 1 + depth_items(items),
        JsonV::Obj(fields) => 1 + depth_fields(fields),
        _ => 0,
    }
}

/// Largest nesting depth among array elements.
pub open spec fn depth_items(items: Seq<JsonV>) -> nat
    decreases items,
{
    if items.len() == 0 {
        0
    } else {
        let d0 = depth(items[0]);
        let dr = depth_items(items.subrange(1, items.len() as int));
        if d0 > dr {
            d0
        } else {
            dr
        }
    }
}

/// Largest nesting depth among object member values.
pub open spec fn depth_fields(fields: Seq<(Seq<char>, JsonV)>) -> nat
    decreases fields,
{
    if fields.len() == 0 {
        0
    } else {
        let d0 = depth(fields[0].1);
        let dr = depth_fields(fields.subrange(1, fields.len() as int));
        if d0 > dr {
            d0
        } else {
            dr
        }
    }
}

/// Each array element is at most as deep as the deepest element.
pub proof fn lemma_depth_items_bound(items: Seq<JsonV>, j: int)
    requires
        0 <= j < items.len(),
    ensures
        depth(items[j]) <= depth_items(items),
    decreases items.len(),
{
    if j > 0 {
        lemma_depth_items_bound(items.subrange(1, items.len() as int), j - 1);
        assert(items.subrange(1, items.len() as int)[j - 1] == items[j]);
    }
}

/// Each object member value is at most as deep as the deepest one.
pub proof fn lemma_depth_fields_bound(fields: Seq<(Seq<char>, JsonV)>, j: int)
    requires
        0 <= j < fields.len(),
    ensures
        depth(fields[j].1) <= depth_fields(fields),
    decreases fields.len(),
{
    if j > 0 {
        lemma_depth_fields_bound(fields.subrange(1, fields.len() as int), j - 1);
        assert(fields.subrange(1, fields.len() as int)[j - 1] == fields[j]);
    }
}

/// True of every value this library itself constructs: a value free of
/// raw number lexemes. A `Num` appears only on the parser's output —
/// the serializer's round-trip law speaks of canonical values alone.
pub open spec fn canonical(v: JsonV) -> bool
    decreases v,
{
    match v {
        JsonV::Num(_) => false,
        JsonV::Arr(items) => canonical_items(items),
        JsonV::Obj(fields) => canonical_fields(fields),
        _ => true,
    }
}

/// Every element is canonical.
pub open spec fn canonical_items(items: Seq<JsonV>) -> bool
    decreases items,
{
    if items.len() == 0 {
        true
    } else {
        canonical(items[0]) && canonical_items(items.subrange(1, items.len() as int))
    }
}

/// Every member value is canonical.
pub open spec fn canonical_fields(fields: Seq<(Seq<char>, JsonV)>) -> bool
    decreases fields,
{
    if fields.len() == 0 {
        true
    } else {
        canonical(fields[0].1) && canonical_fields(fields.subrange(1, fields.len() as int))
    }
}

/// Canonicity of a list reaches each element.
proof fn lemma_canonical_items_index(items: Seq<JsonV>, j: int)
    requires
        canonical_items(items),
        0 <= j < items.len(),
    ensures
        canonical(items[j]),
    decreases items.len(),
{
    if j > 0 {
        lemma_canonical_items_index(items.subrange(1, items.len() as int), j - 1);
        assert(items.subrange(1, items.len() as int)[j - 1] == items[j]);
    }
}

/// Canonicity of a member list reaches each member value.
proof fn lemma_canonical_fields_index(fields: Seq<(Seq<char>, JsonV)>, j: int)
    requires
        canonical_fields(fields),
        0 <= j < fields.len(),
    ensures
        canonical(fields[j].1),
    decreases fields.len(),
{
    if j > 0 {
        lemma_canonical_fields_index(fields.subrange(1, fields.len() as int), j - 1);
        assert(fields.subrange(1, fields.len() as int)[j - 1] == fields[j]);
    }
}

/// The decimal digit character for `d`.
pub open spec fn digit_char(d: int) -> char
    recommends
        0 <= d <= 9,
{
    ((48 + d) as u8) as char
}

/// The lower-case hexadecimal digit character for `d`.
pub open spec fn hex_char(d: int) -> char
    recommends
        0 <= d <= 15,
{
    if d < 10 {
        ((48 + d) as u8) as char
    } else {
        ((97 + (d - 10)) as u8) as char
    }
}

/// Canonical decimal digits of `n`, most significant first, no leading
/// zeros (a single `0` for zero).
pub open spec fn dec_digits(n: nat) -> Seq<char>
    decreases n,
{
    if n < 10 {
        seq![digit_char(n as int)]
    } else {
        dec_digits(n / 10) + seq![digit_char((n % 10) as int)]
    }
}

/// Canonical decimal text of `n`, with a leading `-` when negative.
pub open spec fn int_chars(n: int) -> Seq<char> {
    if n < 0 {
        seq!['-'] + dec_digits((-n) as nat)
    } else {
        dec_digits(n as nat)
    }
}

/// How one character appears inside a JSON string literal.
pub open spec fn esc_char(c: char) -> Seq<char> {
    if c == '"' {
        seq!['\\', '"']
    } else if c == '\\' {
        seq!['\\', '\\']
    } else if (c as u32) < 0x20 {
        seq!['\\', 'u', '0', '0', hex_char((c as u32 / 16) as int), hex_char((c as u32 % 16) as int)]
    } else {
        seq![c]
    }
}

/// The escaped body of a JSON string literal.
pub open spec fn esc_str(s: Seq<char>) -> Seq<char>
    decreases s.len(),
{
    if s.len() == 0 {
        Seq::<char>::empty()
    } else {
        esc_char(s[0]) + esc_str(s.drop_first())
    }
}

/// Compact JSON serialization of a value.
pub open spec fn ser(v: JsonV) -> Seq<char>
    decreases v,
{
    match v {
        JsonV::Null => seq!['n', 'u', 'l', 'l'],
        JsonV::Bool(b) => if b {
            seq!['t', 'r', 'u', 'e']
        } else {
            seq!['f', 'a', 'l', 's', 'e']
        },
        JsonV::Int(n) => int_chars(n as int),
        JsonV::Num(t) => t,
        JsonV::Text(t) => seq!['"'] + esc_str(t) + seq!['"'],
        JsonV::Arr(items) => seq!['['] + ser_items(items) + seq![']'],
        JsonV::Obj(fields) => seq!['{'] + ser_fields(fields) + seq!['}'],
    }
}

/// Comma-separated serialization of array elements.
pub open spec fn ser_items(items: Seq<JsonV>) -> Seq<char>
    decreases items,
{
    if items.len() == 0 {
        Seq::<char>::empty()
    } else if items.len() == 1 {
        ser(items[0])
    } else {
        ser(items[0]) + seq![','] + ser_items(items.subrange(1, items.len() as int))
    }
}

/// Comma-separated serialization of object members.
pub open spec fn ser_fields(fields: Seq<(Seq<char>, JsonV)>) -> Seq<char>
    decreases fields,
{
    if fields.len() == 0 {
        Seq::<char>::empty()
    } else if fields.len() == 1 {
        ser_field(fields[0])
    } else {
        ser_field(fields[0]) + seq![','] + ser_fields(fields.subrange(1, fields.len() as int))
    }
}

/// Serialization of one `"key":value` member.
pub open spec fn ser_field(field: (Seq<char>, JsonV)) -> Seq<char>
    decreases field,
{
    seq!['"'] + esc_str(field.0) + seq!['"', ':'] + ser(field.1)
}

/// Appends the canonical decimal digits of `m` to `out`.
fn write_u64_dec(m: u64, out: &mut Vec<char>)
    ensures
        final(out)@ == old(out)@ + dec_digits(m as nat),
    decreases m,
{
    if m < 10 {
        out.push(((48 + m as u8)) as char);
    } else {
        write_u64_dec(m / 10, out);
        out.push((48 + (m % 10) as u8) as char);
        proof {
            assert(out@ =~= old(out)@ + dec_digits(m as nat));
        }
    }
}

/// Appends the canonical decimal text of `n` to `out`.
fn write_i64_dec(n: i64, out: &mut Vec<char>)
    ensures
        final(out)@ == old(out)@ + int_chars(n as int),
{
    if n >= 0 {
        write_u64_dec(n as u64, out);
    } else {
        out.push('-');
        let m: u64 = (-(n + 1)) as u64 + 1;
        assert(m as nat == (-(n as int)) as nat);
        write_u64_dec(m, out);
        proof {
            assert(out@ =~= old(out)@ + int_chars(n as int));
        }
    }
}

/// Appends the escaped form of the string body `t` to `out`.
fn write_escaped(t: &str, out: &mut Vec<char>)
    ensures
        final(out)@ == old(out)@ + esc_str(t@),
{
    let chars = str_chars(t);
    let mut i: usize = 0;
    proof {
        assert(t@.skip(0) =~= t@);
        assert(out@ =~= old(out)@ + esc_str_take(t@, 0));
    }
    while i < chars.len()
        invariant
            chars@ == t@,
            i <= chars.len(),
            out@ == old(out)@ + esc_str_take(t@, i as int),
        decreases chars.len() - i,
    {
        let c = chars[i];
        if c == '"' {
            out.push('\\');
            out.push('"');
        } else if c == '\\' {
            out.push('\\');
            out.push('\\');
        } else if (c as u32) < 0x20 {
            let v = c as u32;
            out.push('\\');
            out.push('u');
            out.push('0');
            out.push('0');
            out.push((if v / 16 < 10 {
                48 + (v / 16) as u8
            } else {
                97 + ((v / 16) as u8 - 10)
            }) as char);
            out.push((if v % 16 < 10 {
                48 + (v % 16) as u8
            } else {
                97 + ((v % 16) as u8 - 10)
            }) as char);
        } else {
            out.push(c);
        }
        proof {
            lemma_esc_str_take_step(t@, i as int);
            assert(out@ =~= old(out)@ + esc_str_take(t@, i + 1));
        }
        i += 1;
    }
    proof {
        lemma_esc_str_take_all(t@);
    }
}

/// The escaped form of the first `i` characters of `s`.
spec fn esc_str_take(s: Seq<char>, i: int) -> Seq<char>
    decreases i,
{
    if i <= 0 {
        Seq::<char>::empty()
    } else {
        esc_str_take(s, i - 1) + esc_char(s[i - 1])
    }
}

proof fn lemma_esc_str_take_step(s: Seq<char>, i: int)
    requires
        0 <= i < s.len(),
    ensures
        esc_str_take(s, i + 1) == esc_str_take(s, i) + esc_char(s[i]),
{
}

proof fn lemma_esc_str_take_all(s: Seq<char>)
    ensures
        esc_str_take(s, s.len() as int) == esc_str(s),
    decreases s.len(),
{
    if s.len() == 0 {
        assert(esc_str_take(s, 0) =~= esc_str(s));
    } else {
        lemma_esc_str_prefix(s, s.len() as int);
        assert(s.take(s.len() as int) =~= s);
    }
}

/// `esc_str_take` agrees with `esc_str` of the prefix.
proof fn lemma_esc_str_prefix(s: Seq<char>, i: int)
    requires
        0 <= i <= s.len(),
    ensures
        esc_str_take(s, i) == esc_str(s.take(i)),
    decreases i,
{
    if i == 0 {
        assert(esc_str(s.take(0)) =~= Seq::<char>::empty());
    } else {
        lemma_esc_str_prefix(s, i - 1);
        lemma_esc_str_snoc(s.take(i - 1), s[i - 1]);
        assert(s.take(i - 1) =~= s.take(i).drop_last());
        assert(s.take(i) =~= s.take(i - 1).push(s[i - 1]));
    }
    if i == s.len() {
        assert(s.take(i) =~= s);
    }
}

/// Escaping distributes over appending one character.
proof fn lemma_esc_str_snoc(s: Seq<char>, c: char)
    ensures
        esc_str(s.push(c)) == esc_str(s) + esc_char(c),
    decreases s.len(),
{
    if s.len() == 0 {
        assert(s.push(c)[0] == c);
        assert(s.push(c).drop_first() =~= Seq::<char>::empty());
        assert(esc_str(s.push(c)) == esc_char(c) + esc_str(Seq::<char>::empty()));
        assert(esc_char(c) + esc_str(Seq::<char>::empty()) =~= esc_char(c));
        assert(esc_str(s) + esc_char(c) =~= esc_char(c));
    } else {
        assert(s.push(c).drop_first() =~= s.drop_first().push(c));
        lemma_esc_str_snoc(s.drop_first(), c);
        assert(esc_str(s.push(c)) =~= esc_str(s) + esc_char(c));
    }
}

/// Appends the serialization of `v` to `out`.
pub fn write_value(v: &Json, out: &mut Vec<char>)
    ensures
        final(out)@ == old(out)@ + ser(v@),
    decreases depth(v@),
{
    match v {
        Json::Null => {
            out.push('n');
            out.push('u');
            out.push('l');
            out.push('l');
            proof {
                assert(out@ =~= old(out)@ + ser(v@));
            }
        },
        Json::Bool(b) => {
            if *b {
                out.push('t');
                out.push('r');
                out.push('u');
                out.push('e');
            } else {
                out.push('f');
                out.push('a');
                out.push('l');
                out.push('s');
                out.push('e');
            }
            proof {
                assert(out@ =~= old(out)@ + ser(v@));
            }
        },
        Json::Int(n) => {
            write_i64_dec(*n, out);
        },
        Json::Num(t) => {
            let chars = str_chars(t.as_str());
            let mut k: usize = 0;
            while k < chars.len()
                invariant
                    chars@ == t@,
                    v@ == JsonV::Num(t@),
                    k <= chars.len(),
                    out@ == old(out)@ + t@.take(k as int),
                decreases chars.len() - k,
            {
                out.push(chars[k]);
                proof {
                    assert(t@.take(k + 1) =~= t@.take(k as int).push(t@[k as int]));
                }
                k += 1;
            }
            proof {
                assert(t@.take(t@.len() as int) =~= t@);
                assert(out@ =~= old(out)@ + ser(v@));
            }
        },
        Json::Text(t) => {
            out.push('"');
            write_escaped(t.as_str(), out);
            out.push('"');
            proof {
                assert(out@ =~= old(out)@ + ser(v@));
            }
        },
        Json::Arr(items) => {
            out.push('[');
            let ghost items_v = json_views(items@);
            proof {
                lemma_json_views_index(items@);
            }
            let mut j: usize = 0;
            while j < items.len()
                invariant
                    v@ == JsonV::Arr(items_v),
                    items_v == json_views(items@),
                    items_v.len() == items@.len(),
                    forall|k: int| 0 <= k < items@.len() ==> items_v[k] == json_view(items@[k]),
                    j <= items.len(),
                    out@ == old(out)@ + seq!['['] + ser_items_take(items_v, j as int),
                decreases items.len() - j,
            {
                if j > 0 {
                    out.push(',');
                }
                proof {
                    lemma_depth_items_bound(items_v, j as int);
                    assert(depth(items@[j as int]@) < depth(v@));
                }
                write_value(&items[j], out);
                proof {
                    lemma_ser_items_take_step(items_v, j as int);
                    assert(out@ =~= old(out)@ + seq!['['] + ser_items_take(items_v, j + 1));
                }
                j += 1;
            }
            out.push(']');
            proof {
                lemma_ser_items_take_all(items_v);
                assert(out@ =~= old(out)@ + ser(v@));
            }
        },
        Json::Obj(fields) => {
            out.push('{');
            let ghost fields_v = json_field_views(fields@);
            proof {
                lemma_json_field_views_index(fields@);
            }
            let mut j: usize = 0;
            while j < fields.len()
                invariant
                    v@ == JsonV::Obj(fields_v),
                    fields_v == json_field_views(fields@),
                    fields_v.len() == fields@.len(),
                    forall|k: int|
                        0 <= k < fields@.len() ==> fields_v[k] == (
                            fields@[k].0@,
                            json_view(fields@[k].1),
                        ),
                    j <= fields.len(),
                    out@ == old(out)@ + seq!['{'] + ser_fields_take(fields_v, j as int),
                decreases fields.len() - j,
            {
                if j > 0 {
                    out.push(',');
                }
                out.push('"');
                write_escaped(fields[j].0.as_str(), out);
                out.push('"');
                out.push(':');
                proof {
                    lemma_depth_fields_bound(fields_v, j as int);
                    assert(depth(fields@[j as int].1@) < depth(v@));
                }
                write_value(&fields[j].1, out);
                proof {
                    lemma_ser_fields_take_step(fields_v, j as int);
                    assert(out@ =~= old(out)@ + seq!['{'] + ser_fields_take(fields_v, j + 1));
                }
                j += 1;
            }
            out.push('}');
            proof {
                lemma_ser_fields_take_all(fields_v);
                assert(out@ =~= old(out)@ + ser(v@));
            }
        },
    }
}

/// Serialization of the first `i` array elements, with separating commas.
spec fn ser_items_take(items: Seq<JsonV>, i: int) -> Seq<char>
    decreases i,
{
    if i <= 0 {
        Seq::<char>::empty()
    } else if i == 1 {
        ser(items[0])
    } else {
        ser_items_take(items, i - 1) + seq![','] + ser(items[i - 1])
    }
}

proof fn lemma_ser_items_take_step(items: Seq<JsonV>, i: int)
    requires
        0 <= i < items.len(),
    ensures
        i == 0 ==> ser_items_take(items, 1) == ser(items[0]),
        i > 0 ==> ser_items_take(items, i + 1) == ser_items_take(items, i) + seq![','] + ser(
            items[i],
        ),
{
}

proof fn lemma_ser_items_take_all(items: Seq<JsonV>)
    ensures
        ser_items_take(items, items.len() as int) == ser_items(items),
{
    lemma_ser_items_take_prefix(items, items.len() as int);
    assert(items.subrange(0, items.len() as int) =~= items);
}

proof fn lemma_ser_items_take_prefix(items: Seq<JsonV>, i: int)
    requires
        0 <= i <= items.len(),
    ensures
        ser_items_take(items, i) == ser_items(items.subrange(0, i)),
    decreases i,
{
    if i == 0 {
        assert(ser_items(items.subrange(0, 0)) =~= Seq::<char>::empty());
    } else if i == 1 {
        assert(items.subrange(0, 1) =~= seq![items[0]]);
        assert(ser_items(items.subrange(0, 1)) == ser(items[0]));
    } else {
        lemma_ser_items_take_prefix(items, i - 1);
        lemma_ser_items_snoc(items.subrange(0, i - 1), items[i - 1]);
        assert(items.subrange(0, i) =~= items.subrange(0, i - 1).push(items[i - 1]));
    }
}

/// `ser_items` distributes over appending one element.
proof fn lemma_ser_items_snoc(items: Seq<JsonV>, v: JsonV)
    ensures
        items.len() == 0 ==> ser_items(items.push(v)) == ser(v),
        items.len() > 0 ==> ser_items(items.push(v)) == ser_items(items) + seq![','] + ser(v),
    decreases items.len(),
{
    if items.len() == 0 {
        assert(items.push(v) =~= seq![v]);
        assert(ser_items(seq![v]) == ser(seq![v][0]));
    } else if items.len() == 1 {
        let p = items.push(v);
        assert(p.len() == 2);
        assert(p[0] == items[0]);
        assert(p.subrange(1, 2) =~= seq![v]);
        assert(ser_items(p) == ser(p[0]) + seq![','] + ser_items(p.subrange(1, 2)));
    } else {
        let p = items.push(v);
        assert(p.subrange(1, p.len() as int) =~= items.subrange(1, items.len() as int).push(v));
        lemma_ser_items_snoc(items.subrange(1, items.len() as int), v);
        assert(ser_items(items.push(v)) =~= ser_items(items) + seq![','] + ser(v));
    }
}

/// Serialization of the first `i` object members, with separating commas.
spec fn ser_fields_take(fields: Seq<(Seq<char>, JsonV)>, i: int) -> Seq<char>
    decreases i,
{
    if i <= 0 {
        Seq::<char>::empty()
    } else if i == 1 {
        ser_field(fields[0])
    } else {
        ser_fields_take(fields, i - 1) + seq![','] + ser_field(fields[i - 1])
    }
}

proof fn lemma_ser_fields_take_step(fields: Seq<(Seq<char>, JsonV)>, i: int)
    requires
        0 <= i < fields.len(),
    ensures
        i == 0 ==> ser_fields_take(fields, 1) == ser_field(fields[0]),
        i > 0 ==> ser_fields_take(fields, i + 1) == ser_fields_take(fields, i) + seq![',']
            + ser_field(fields[i]),
{
}

proof fn lemma_ser_fields_take_all(fields: Seq<(Seq<char>, JsonV)>)
    ensures
        ser_fields_take(fields, fields.len() as int) == ser_fields(fields),
{
    lemma_ser_fields_take_prefix(fields, fields.len() as int);
    assert(fields.subrange(0, fields.len() as int) =~= fields);
}

proof fn lemma_ser_fields_take_prefix(fields: Seq<(Seq<char>, JsonV)>, i: int)
    requires
        0 <= i <= fields.len(),
    ensures
        ser_fields_take(fields, i) == ser_fields(fields.subrange(0, i)),
    decreases i,
{
    if i == 0 {
        assert(ser_fields(fields.subrange(0, 0)) =~= Seq::<char>::empty());
    } else if i == 1 {
        assert(fields.subrange(0, 1) =~= seq![fields[0]]);
        assert(ser_fields(fields.subrange(0, 1)) == ser_field(fields[0]));
    } else {
        lemma_ser_fields_take_prefix(fields, i - 1);
        lemma_ser_fields_snoc(fields.subrange(0, i - 1), fields[i - 1]);
        assert(fields.subrange(0, i) =~= fields.subrange(0, i - 1).push(fields[i - 1]));
    }
}

/// `ser_fields` distributes over appending one member.
proof fn lemma_ser_fields_snoc(fields: Seq<(Seq<char>, JsonV)>, f: (Seq<char>, JsonV))
    ensures
        fields.len() == 0 ==> ser_fields(fields.push(f)) == ser_field(f),
        fields.len() > 0 ==> ser_fields(fields.push(f)) == ser_fields(fields) + seq![',']
            + ser_field(f),
    decreases fields.len(),
{
    if fields.len() == 0 {
        assert(fields.push(f) =~= seq![f]);
        assert(ser_fields(seq![f]) == ser_field(seq![f][0]));
    } else if fields.len() == 1 {
        let p = fields.push(f);
        assert(p.len() == 2);
        assert(p[0] == fields[0]);
        assert(p.subrange(1, 2) =~= seq![f]);
        assert(ser_fields(p) == ser_field(p[0]) + seq![','] + ser_fields(p.subrange(1, 2)));
    } else {
        let p = fields.push(f);
        assert(p.subrange(1, p.len() as int) =~= fields.subrange(
            1,
            fields.len() as int,
        ).push(f));
        lemma_ser_fields_snoc(fields.subrange(1, fields.len() as int), f);
        assert(ser_fields(fields.push(f)) =~= ser_fields(fields) + seq![','] + ser_field(f));
    }
}

/// The value of the first member named `key`, or `None`.
pub open spec fn fields_get(fields: Seq<(Seq<char>, JsonV)>, key: Seq<char>) -> Option<JsonV>
    decreases fields.len(),
{
    if fields.len() == 0 {
        None
    } else if fields[0].0 == key {
        Some(fields[0].1)
    } else {
        fields_get(fields.drop_first(), key)
    }
}

/// The member named `key` of an object, or `None` for any other shape.
pub open spec fn obj_get(v: JsonV, key: Seq<char>) -> Option<JsonV> {
    match v {
        JsonV::Obj(fields) => fields_get(fields, key),
        _ => None,
    }
}

/// The text of a string value, or `None` for any other shape.
pub open spec fn as_text(v: Option<JsonV>) -> Option<Seq<char>> {
    match v {
        Some(JsonV::Text(t)) => Some(t),
        _ => None,
    }
}

/// The text of a string member, with a default for anything else.
pub open spec fn text_or(v: Option<JsonV>, default: Seq<char>) -> Seq<char> {
    match as_text(v) {
        Some(t) => t,
        None => default,
    }
}

impl Json {
    /// The member of this object named `key`.
    pub fn get<'a>(&'a self, key: &str) -> (r: Option<&'a Json>)
        ensures
            match obj_get(self@, key@) {
                Some(v) => r matches Some(j) && j@ == v,
                None => r is None,
            },
    {
        match self {
            Json::Obj(fields) => {
                proof {
                    lemma_json_field_views_index(fields@);
                    assert(json_field_views(fields@).skip(0) =~= json_field_views(fields@));
                }
                let mut k: usize = 0;
                loop
                    invariant
                        self is Obj,
                        self@ == JsonV::Obj(json_field_views(fields@)),
                        json_field_views(fields@).len() == fields@.len(),
                        forall|q: int|
                            0 <= q < fields@.len() ==> json_field_views(fields@)[q] == (
                                fields@[q].0@,
                                json_view(fields@[q].1),
                            ),
                        k <= fields@.len(),
                        fields_get(json_field_views(fields@), key@) == fields_get(
                            json_field_views(fields@).skip(k as int),
                            key@,
                        ),
                    decreases fields@.len() - k,
                {
                    if k == fields.len() {
                        return None;
                    }
                    proof {
                        assert(json_field_views(fields@).skip(k as int)[0] == json_field_views(
                            fields@,
                        )[k as int]);
                    }
                    if crate::text::str_eq(fields[k].0.as_str(), key) {
                        return Some(&fields[k].1);
                    }
                    proof {
                        assert(json_field_views(fields@).skip(k as int).drop_first()
                            =~= json_field_views(fields@).skip(k + 1));
                    }
                    k += 1;
                }
            },
            _ => None,
        }
    }

    /// The text of this string value.
    pub fn as_str<'a>(&'a self) -> (r: Option<&'a String>)
        ensures
            match self@ {
                JsonV::Text(t) => r matches Some(s) && s@ == t,
                _ => r is None,
            },
    {
        match self {
            Json::Text(t) => Some(t),
            _ => None,
        }
    }

    /// True when this value is the JSON null.
    pub fn is_null(&self) -> (r: bool)
        ensures
            r == (self@ is Null),
    {
        match self {
            Json::Null => true,
            _ => false,
        }
    }

    /// This boolean value.
    pub fn as_bool(&self) -> (r: Option<bool>)
        ensures
            match self@ {
                JsonV::Bool(b) => r == Some(b),
                _ => r is None,
            },
    {
        match self {
            Json::Bool(b) => Some(*b),
            _ => None,
        }
    }

    /// This integer value.
    pub fn as_int(&self) -> (r: Option<i64>)
        ensures
            match self@ {
                JsonV::Int(n) => r == Some(n),
                _ => r is None,
            },
    {
        match self {
            Json::Int(n) => Some(*n),
            _ => None,
        }
    }

    /// The elements of this array value.
    pub fn as_array<'a>(&'a self) -> (r: Option<&'a Vec<Json>>)
        ensures
            match self@ {
                JsonV::Arr(items) => r matches Some(v) && json_views(v@) == items,
                _ => r is None,
            },
    {
        match self {
            Json::Arr(items) => Some(items),
            _ => None,
        }
    }
}

/// A string value from a string slice.
pub fn text(s: &str) -> (r: Json)
    ensures
        r@ == JsonV::Text(s@),
{
    Json::Text(s.to_owned())
}

/// An object of one member.
pub fn obj1(k: &str, v: Json) -> (r: Json)
    ensures
        r@ == JsonV::Obj(seq![(k@, v@)]),
{
    let ghost g = v@;
    let mut fields: Vec<(String, Json)> = Vec::new();
    fields.push((k.to_owned(), v));
    proof {
        lemma_json_field_views_index(fields@);
        assert(json_field_views(fields@) =~= seq![(k@, g)]);
    }
    Json::Obj(fields)
}

/// An object of two members.
pub fn obj2(k1: &str, v1: Json, k2: &str, v2: Json) -> (r: Json)
    ensures
        r@ == JsonV::Obj(seq![(k1@, v1@), (k2@, v2@)]),
{
    let ghost g1 = v1@;
    let ghost g2 = v2@;
    let mut fields: Vec<(String, Json)> = Vec::new();
    fields.push((k1.to_owned(), v1));
    fields.push((k2.to_owned(), v2));
    proof {
        lemma_json_field_views_index(fields@);
        assert(json_field_views(fields@) =~= seq![(k1@, g1), (k2@, g2)]);
    }
    Json::Obj(fields)
}

/// An object of three members.
pub fn obj3(k1: &str, v1: Json, k2: &str, v2: Json, k3: &str, v3: Json) -> (r: Json)
    ensures
        r@ == JsonV::Obj(seq![(k1@, v1@), (k2@, v2@), (k3@, v3@)]),
{
    let ghost g1 = v1@;
    let ghost g2 = v2@;
    let ghost g3 = v3@;
    let mut fields: Vec<(String, Json)> = Vec::new();
    fields.push((k1.to_owned(), v1));
    fields.push((k2.to_owned(), v2));
    fields.push((k3.to_owned(), v3));
    proof {
        lemma_json_field_views_index(fields@);
        assert(json_field_views(fields@) =~= seq![(k1@, g1), (k2@, g2), (k3@, g3)]);
    }
    Json::Obj(fields)
}

/// An array of one element.
pub fn arr1(v: Json) -> (r: Json)
    ensures
        r@ == JsonV::Arr(seq![v@]),
{
    let ghost g = v@;
    let mut items: Vec<Json> = Vec::new();
    items.push(v);
    proof {
        lemma_json_views_index(items@);
        assert(json_views(items@) =~= seq![g]);
    }
    Json::Arr(items)
}

/// Appends one member to an object under construction.
pub fn obj_push(obj: Json, k: &str, v: Json) -> (r: Json)
    requires
        obj@ is Obj,
    ensures
        r@ == JsonV::Obj(obj@->Obj_0 + seq![(k@, v@)]),
{
    let ghost gv = v@;
    match obj {
        Json::Obj(mut fields) => {
            let ghost g_fields = fields@;
            fields.push((k.to_owned(), v));
            proof {
                lemma_json_field_views_index(fields@);
                lemma_json_field_views_index(g_fields);
                assert(json_field_views(fields@) =~= json_field_views(g_fields) + seq![
                    (k@, gv),
                ]);
            }
            Json::Obj(fields)
        },
        _ => obj,
    }
}

/// Characters that may follow a complete serialized value: a separator,
/// a closing bracket, or a closing brace.
pub open spec fn is_delim(c: char) -> bool {
    c == ',' || c == ']' || c == '}'
}

/// The insignificant whitespace of JSON.
pub open spec fn is_ws(c: char) -> bool {
    c == ' ' || c == '\t' || c == '\n' || c == '\r'
}

/// A character that ends a value: a delimiter or whitespace.
pub open spec fn is_terminator(c: char) -> bool {
    is_delim(c) || is_ws(c)
}

/// True when the serialization of `v` lies at position `i` of `s`,
/// followed by a terminator or by the end of `s`.
pub open spec fn value_at(s: Seq<char>, i: int, v: JsonV) -> bool {
    &&& 0 <= i
    &&& i + ser(v).len() <= s.len()
    &&& s.subrange(i, i + ser(v).len() as int) == ser(v)
    &&& (i + ser(v).len() == s.len() || is_terminator(s[i + ser(v).len()]))
}

/// The position of the first character at or after `i` that is not
/// insignificant whitespace.
fn skip_ws(s: &Vec<char>, i: usize) -> (r: usize)
    requires
        i <= s@.len(),
    ensures
        i <= r <= s@.len(),
        forall|k: int| i <= k < r ==> is_ws(#[trigger] s@[k]),
        r == s@.len() || !is_ws(s@[r as int]),
{
    let mut p = i;
    loop
        invariant
            i <= p <= s@.len(),
            forall|k: int| i <= k < p ==> is_ws(#[trigger] s@[k]),
        ensures
            i <= p <= s@.len(),
            forall|k: int| i <= k < p ==> is_ws(#[trigger] s@[k]),
            p == s@.len() || !is_ws(s@[p as int]),
        decreases s@.len() - p,
    {
        if p == s.len() {
            break;
        }
        let c = s[p];
        if !(c == ' ' || c == '\t' || c == '\n' || c == '\r') {
            break;
        }
        p += 1;
    }
    p
}

/// A decimal digit character.
pub open spec fn is_digit(c: char) -> bool {
    48 <= c as u32 <= 57
}

/// Splitting a known concatenation out of a subrange.
proof fn lemma_subrange_concat(s: Seq<char>, i: int, x: Seq<char>, y: Seq<char>)
    requires
        0 <= i,
        i + x.len() + y.len() <= s.len(),
        s.subrange(i, i + x.len() + y.len()) == x + y,
    ensures
        s.subrange(i, i + x.len() as int) == x,
        s.subrange(i + x.len() as int, i + x.len() + y.len()) == y,
{
    let whole = s.subrange(i, i + x.len() + y.len());
    assert(s.subrange(i, i + x.len() as int) =~= x) by {
        assert forall|k: int| 0 <= k < x.len() implies s.subrange(i, i + x.len() as int)[k] == x[k]
            by {
            assert(whole[k] == (x + y)[k]);
        }
    }
    assert(s.subrange(i + x.len() as int, i + x.len() + y.len()) =~= y) by {
        assert forall|k: int|
            0 <= k < y.len() implies s.subrange(i + x.len() as int, i + x.len() + y.len())[k]
            == y[k] by {
            assert(whole[x.len() + k] == (x + y)[x.len() + k]);
        }
    }
}

/// Every character of a canonical decimal is a digit, and there is at
/// least one of them.
proof fn lemma_dec_digits_are_digits(n: nat)
    ensures
        dec_digits(n).len() >= 1,
        forall|k: int| 0 <= k < dec_digits(n).len() ==> is_digit(#[trigger] dec_digits(n)[k]),
    decreases n,
{
    if n < 10 {
        assert(((48 + n) as u8) as char as u32 == 48 + n);
    } else {
        lemma_dec_digits_are_digits(n / 10);
        assert(((48 + (n % 10)) as u8) as char as u32 == 48 + (n % 10));
        assert forall|k: int| 0 <= k < dec_digits(n).len() implies is_digit(
            #[trigger] dec_digits(n)[k],
        ) by {
            if k < dec_digits(n / 10).len() {
                assert(dec_digits(n)[k] == dec_digits(n / 10)[k]);
            }
        }
    }
}

/// The serialization of a value free of raw number lexemes is nonempty,
/// and its first character identifies the variant.
proof fn lemma_ser_first(v: JsonV)
    requires
        !(v is Num),
    ensures
        ser(v).len() >= 1,
        v is Null <==> ser(v)[0] == 'n',
        v is Bool <==> (ser(v)[0] == 't' || ser(v)[0] == 'f'),
        v is Int <==> (ser(v)[0] == '-' || is_digit(ser(v)[0])),
        v is Text <==> ser(v)[0] == '"',
        v is Arr <==> ser(v)[0] == '[',
        v is Obj <==> ser(v)[0] == '{',
        !is_delim(ser(v)[0]),
        !is_ws(ser(v)[0]),
        ser(v)[0] != ':',
{
    assert((',' as u32) == 44 && (']' as u32) == 93 && ('}' as u32) == 125 && (':' as u32) == 58);
    assert((' ' as u32) == 32 && ('\t' as u32) == 9 && ('\n' as u32) == 10 && ('\r' as u32)
        == 13);
    match v {
        JsonV::Int(n) => {
            if n >= 0 {
                lemma_dec_digits_are_digits(n as nat);
                assert(ser(v)[0] == dec_digits(n as nat)[0]);
            } else {
                lemma_dec_digits_are_digits((-(n as int)) as nat);
            }
        },
        _ => {},
    }
}

/// Numeric value of a digit string, most significant digit first.
pub open spec fn digits_val(ds: Seq<char>) -> nat
    decreases ds.len(),
{
    if ds.len() == 0 {
        0
    } else {
        digits_val(ds.drop_last()) * 10 + (if ds.last() as u32 >= 48 {
            (ds.last() as u32 - 48) as nat
        } else {
            0
        })
    }
}

/// The canonical decimal of `m` evaluates back to `m`.
proof fn lemma_digits_val_dec(m: nat)
    ensures
        digits_val(dec_digits(m)) == m,
    decreases m,
{
    if m < 10 {
        assert(((48 + m) as u8) as char as u32 == 48 + m);
        assert(dec_digits(m).last() == digit_char(m as int));
        assert(dec_digits(m).drop_last() =~= Seq::<char>::empty());
        assert(digits_val(Seq::<char>::empty()) == 0);
    } else {
        lemma_digits_val_dec(m / 10);
        assert(((48 + (m % 10)) as u8) as char as u32 == 48 + (m % 10));
        assert(dec_digits(m).drop_last() =~= dec_digits(m / 10));
        assert(dec_digits(m).last() == digit_char((m % 10) as int));
    }
}

/// Appending a digit multiplies the value by ten and adds the digit.
proof fn lemma_digits_val_push(ds: Seq<char>, c: char)
    requires
        is_digit(c),
    ensures
        digits_val(ds.push(c)) == digits_val(ds) * 10 + (c as u32 - 48),
{
    assert(ds.push(c).drop_last() =~= ds);
    assert(ds.push(c).last() == c);
}

/// A prefix of a digit string is worth no more than the whole.
proof fn lemma_digits_val_take_le(ds: Seq<char>, k: int)
    requires
        0 <= k <= ds.len(),
        forall|j: int| 0 <= j < ds.len() ==> is_digit(#[trigger] ds[j]),
    ensures
        digits_val(ds.take(k)) <= digits_val(ds),
    decreases ds.len() - k,
{
    if k < ds.len() {
        lemma_digits_val_take_le(ds, k + 1);
        assert(ds.take(k + 1) =~= ds.take(k).push(ds[k]));
        lemma_digits_val_push(ds.take(k), ds[k]);
    } else {
        assert(ds.take(k) =~= ds);
    }
}

/// Largest magnitude a negative `i64` can have.
const NEG_LIMIT: u64 = 9223372036854775808;

/// Largest value a nonnegative `i64` can have.
const POS_LIMIT: u64 = 9223372036854775807;

/// Parses a JSON number at position `i`. Where the canonical decimal of
/// some `i64` lies at `i`, followed by a terminator or the end, it
/// returns exactly that integer and the position after its last digit.
/// Any other number of the JSON grammar — a fraction, an exponent form,
/// or an integer out of the 64-bit range — is consumed whole and carried
/// verbatim as its lexeme.
#[verifier::rlimit(100)]
fn parse_number(s: &Vec<char>, i: usize) -> (r: Option<(Json, usize)>)
    requires
        i <= s@.len(),
    ensures
        r is Some ==> i < r.unwrap().1 <= s@.len(),
        forall|n: i64|
            value_at(s@, i as int, JsonV::Int(n)) ==> r is Some && r.unwrap().0@ == JsonV::Int(n)
                && r.unwrap().1 == i + ser(JsonV::Int(n)).len(),
{
    let len = s.len();
    if i >= len {
        proof {
            assert forall|n: i64| !value_at(s@, i as int, JsonV::Int(n)) by {
                lemma_ser_first(JsonV::Int(n));
            }
        }
        return None;
    }
    let neg = s[i] == '-';
    let start = if neg {
        i + 1
    } else {
        i
    };
    proof {
        assert forall|n: i64|
            value_at(s@, i as int, JsonV::Int(n)) implies (n < 0 <==> s@[i as int] == '-') by {
            lemma_int_shape(s@, i as int, n);
        }
    }
    // scan the maximal digit run from `start`
    let mut k = start;
    while k < len && 48 <= s[k] as u32 && s[k] as u32 <= 57
        invariant
            start <= k <= len,
            len == s@.len(),
            forall|j: int| start <= j < k ==> is_digit(#[trigger] s@[j]),
        decreases len - k,
    {
        k += 1;
    }
    if k == start {
        proof {
            assert forall|n: i64| !value_at(s@, i as int, JsonV::Int(n)) by {
                if value_at(s@, i as int, JsonV::Int(n)) {
                    lemma_int_shape(s@, i as int, n);
                    assert(is_digit(s@[start as int]));
                }
            }
        }
        return None;
    }
    let limit: u64 = if neg {
        NEG_LIMIT
    } else {
        POS_LIMIT
    };
    let mut acc: u64 = 0;
    let mut overflow = false;
    let mut p = start;
    proof {
        assert(s@.subrange(start as int, start as int) =~= Seq::<char>::empty());
    }
    while p < k
        invariant
            start <= p <= k <= len,
            len == s@.len(),
            k == len || !is_digit(s@[k as int]),
            forall|j: int| start <= j < k ==> is_digit(#[trigger] s@[j]),
            !overflow ==> acc == digits_val(s@.subrange(start as int, p as int)) && acc <= limit,
            overflow ==> digits_val(s@.subrange(start as int, p as int)) > limit,
            i <= start <= i + 1,
            neg <==> s@[i as int] == '-',
            neg ==> start == i + 1,
            !neg ==> start == i,
            limit == if neg {
                NEG_LIMIT
            } else {
                POS_LIMIT
            },
        decreases k - p,
    {
        let d: u32 = s[p] as u32 - 48;
        let ghost pre = s@.subrange(start as int, p as int);
        proof {
            assert(s@.subrange(start as int, p + 1) =~= pre.push(s@[p as int]));
            lemma_digits_val_push(pre, s@[p as int]);
        }
        if overflow {
        } else if acc > limit / 10 || acc * 10 > limit - d as u64 {
            overflow = true;
            proof {
                assert(digits_val(s@.subrange(start as int, p + 1)) > limit);
            }
        } else {
            acc = acc * 10 + d as u64;
        }
        p += 1;
    }
    proof {
        if overflow {
            assert forall|n: i64| !value_at(s@, i as int, JsonV::Int(n)) by {
                if value_at(s@, i as int, JsonV::Int(n)) {
                    lemma_int_shape(s@, i as int, n);
                    lemma_int_no_overflow(s@, i as int, n, start as int, k as int, limit);
                }
            }
        }
    }
    // a fraction or an exponent makes the number a raw lexeme
    let mut end = k;
    let mut plain = true;
    if end < len && s[end] == '.' {
        proof {
            assert(('.' as u32) == 46);
            assert forall|n: i64| !value_at(s@, i as int, JsonV::Int(n)) by {
                if value_at(s@, i as int, JsonV::Int(n)) {
                    lemma_int_shape(s@, i as int, n);
                    lemma_int_run_extent(s@, i as int, n, start as int, k as int);
                }
            }
        }
        plain = false;
        end += 1;
        let fstart = end;
        while end < len && 48 <= s[end] as u32 && s[end] as u32 <= 57
            invariant
                fstart <= end <= len,
                len == s@.len(),
            decreases len - end,
        {
            end += 1;
        }
        if end == fstart {
            return None;
        }
    }
    if end < len && (s[end] == 'e' || s[end] == 'E') {
        proof {
            if plain {
                assert(('e' as u32) == 101 && ('E' as u32) == 69);
                assert forall|n: i64| !value_at(s@, i as int, JsonV::Int(n)) by {
                    if value_at(s@, i as int, JsonV::Int(n)) {
                        lemma_int_shape(s@, i as int, n);
                        lemma_int_run_extent(s@, i as int, n, start as int, k as int);
                    }
                }
            }
        }
        plain = false;
        end += 1;
        if end < len && (s[end] == '+' || s[end] == '-') {
            end += 1;
        }
        let estart = end;
        while end < len && 48 <= s[end] as u32 && s[end] as u32 <= 57
            invariant
                estart <= end <= len,
                len == s@.len(),
            decreases len - end,
        {
            end += 1;
        }
        if end == estart {
            return None;
        }
    }
    if plain && !overflow {
        let val: i64 = if neg {
            if acc == NEG_LIMIT {
                i64::MIN
            } else {
                -(acc as i64)
            }
        } else {
            acc as i64
        };
        proof {
            assert forall|n: i64|
                value_at(s@, i as int, JsonV::Int(n)) implies val == n && k == i + ser(
                JsonV::Int(n),
            ).len() by {
                lemma_int_shape(s@, i as int, n);
                let m = if n < 0 {
                    (-(n as int)) as nat
                } else {
                    n as nat
                };
                let ds = dec_digits(m);
                lemma_dec_digits_are_digits(m);
                lemma_int_run_extent(s@, i as int, n, start as int, k as int);
                assert(s@.subrange(start as int, k as int) == ds);
                lemma_digits_val_dec(m);
            }
        }
        Some((Json::Int(val), k))
    } else {
        // carry the lexeme from `i` through `end` verbatim
        let mut lexeme: Vec<char> = Vec::new();
        let mut q = i;
        while q < end
            invariant
                i <= q <= end <= len,
                len == s@.len(),
                lexeme@ == s@.subrange(i as int, q as int),
            decreases end - q,
        {
            lexeme.push(s[q]);
            proof {
                assert(s@.subrange(i as int, q + 1) =~= s@.subrange(i as int, q as int).push(
                    s@[q as int],
                ));
            }
            q += 1;
        }
        Some((Json::Num(crate::text::chars_to_string(&lexeme)), end))
    }
}

/// Shape facts about a serialized integer at position `i`: the sign, the
/// digit region, and the character after it.
proof fn lemma_int_shape(s: Seq<char>, i: int, n: i64)
    requires
        value_at(s, i, JsonV::Int(n)),
    ensures
        n < 0 <==> s[i] == '-',
        ({
            let start = if n < 0 {
                i + 1
            } else {
                i
            };
            let m = if n < 0 {
                (-(n as int)) as nat
            } else {
                n as nat
            };
            let ds = dec_digits(m);
            &&& start + ds.len() <= s.len()
            &&& s.subrange(start, start + ds.len() as int) == ds
            &&& (start + ds.len() == s.len() || is_terminator(s[start + ds.len()]))
            &&& forall|j: int| start <= j < start + ds.len() ==> is_digit(#[trigger] s[j])
        }),
{
    let m = if n < 0 {
        (-(n as int)) as nat
    } else {
        n as nat
    };
    let ds = dec_digits(m);
    lemma_dec_digits_are_digits(m);
    if n < 0 {
        assert(ser(JsonV::Int(n)) == seq!['-'] + ds);
        lemma_subrange_concat(s, i, seq!['-'], ds);
        assert(s[i] == s.subrange(i, i + 1)[0]);
        assert forall|j: int| i + 1 <= j < i + 1 + ds.len() implies is_digit(#[trigger] s[j]) by {
            assert(s[j] == s.subrange(i + 1, i + 1 + ds.len() as int)[j - (i + 1)]);
        }
    } else {
        assert(s.subrange(i, i + ds.len() as int) == ds);
        assert(s[i] == ds[0]);
        assert(is_digit(ds[0]));
        assert(s[i] != '-') by {
            assert(('-' as u32) == 45);
        }
        assert forall|j: int| i <= j < i + ds.len() implies is_digit(#[trigger] s[j]) by {
            assert(s[j] == s.subrange(i, i + ds.len() as int)[j - i]);
        }
    }
}

/// Where a serialized integer lies at `i`, no prefix of its digits can
/// exceed the corresponding `i64` magnitude limit.
proof fn lemma_int_no_overflow(s: Seq<char>, i: int, n: i64, start: int, e: int, limit: u64)
    requires
        value_at(s, i, JsonV::Int(n)),
        start == if n < 0 {
            i + 1
        } else {
            i
        },
        s[i] == '-' <==> n < 0,
        limit == if n < 0 {
            NEG_LIMIT
        } else {
            POS_LIMIT
        },
        start <= e,
        forall|j: int| start <= j < e ==> is_digit(#[trigger] s[j]),
        e <= s.len(),
        e - start <= dec_digits(
            if n < 0 {
                (-(n as int)) as nat
            } else {
                n as nat
            },
        ).len(),
    ensures
        digits_val(s.subrange(start, e)) <= limit,
{
    let m = if n < 0 {
        (-(n as int)) as nat
    } else {
        n as nat
    };
    let ds = dec_digits(m);
    lemma_int_shape(s, i, n);
    lemma_dec_digits_are_digits(m);
    assert(s.subrange(start, e) =~= ds.take(e - start)) by {
        assert forall|j: int| 0 <= j < e - start implies s.subrange(start, e)[j] == ds.take(
            e - start,
        )[j] by {
            assert(s[start + j] == s.subrange(start, start + ds.len() as int)[j]);
        }
    }
    lemma_digits_val_take_le(ds, e - start);
    lemma_digits_val_dec(m);
}

/// The maximal digit run the parser scanned is exactly the digit region
/// of the serialized integer.
proof fn lemma_int_run_extent(s: Seq<char>, i: int, n: i64, start: int, k: int)
    requires
        value_at(s, i, JsonV::Int(n)),
        start == if n < 0 {
            i + 1
        } else {
            i
        },
        s[i] == '-' <==> n < 0,
        start <= k <= s.len(),
        forall|j: int| start <= j < k ==> is_digit(#[trigger] s[j]),
        k == s.len() || !is_digit(s[k]),
    ensures
        ({
            let m = if n < 0 {
                (-(n as int)) as nat
            } else {
                n as nat
            };
            &&& k == start + dec_digits(m).len()
            &&& s.subrange(start, k) == dec_digits(m)
            &&& k == i + ser(JsonV::Int(n)).len()
        }),
{
    let m = if n < 0 {
        (-(n as int)) as nat
    } else {
        n as nat
    };
    let ds = dec_digits(m);
    lemma_int_shape(s, i, n);
    lemma_dec_digits_are_digits(m);
    if k < start + ds.len() {
        assert(is_digit(s[k])) by {
            assert(s[k] == s.subrange(start, start + ds.len() as int)[k - start]);
        }
        assert(k < s.len());
        assert(false);
    }
    if k > start + ds.len() {
        let q = start + ds.len();
        assert(is_digit(s[q]));
        assert(q == s.len() || is_terminator(s[q]));
        assert((',' as u32) == 44 && (']' as u32) == 93 && ('}' as u32) == 125);
        assert((' ' as u32) == 32 && ('\t' as u32) == 9 && ('\n' as u32) == 10 && ('\r' as u32)
            == 13);
        assert(false);
    }
    assert(s.subrange(start, k) == ds);
}

/// True when the escaped body of a string whose content is `t` lies at
/// position `i` of `s`, terminated by a closing quote.
pub open spec fn str_body_at(s: Seq<char>, i: int, t: Seq<char>) -> bool {
    &&& 0 <= i
    &&& i + esc_str(t).len() < s.len()
    &&& s.subrange(i, i + esc_str(t).len() as int) == esc_str(t)
    &&& s[i + esc_str(t).len()] == '"'
}

/// The escape of any character starts with `\` or is the character
/// itself, and is one to six characters long.
proof fn lemma_esc_char_shape(c: char)
    ensures
        1 <= esc_char(c).len() <= 6,
        c == '"' || c == '\\' || (c as u32) < 0x20 ==> esc_char(c)[0] == '\\',
        !(c == '"' || c == '\\' || (c as u32) < 0x20) ==> esc_char(c) == seq![c],
{
}

/// Decomposition of an escaped string body: its head escape lies first,
/// and the remainder is again an escaped body at the following position.
proof fn lemma_str_body_step(s: Seq<char>, i: int, t: Seq<char>)
    requires
        str_body_at(s, i, t),
        t.len() > 0,
    ensures
        i + esc_char(t[0]).len() <= s.len(),
        s.subrange(i, i + esc_char(t[0]).len() as int) == esc_char(t[0]),
        s[i] == esc_char(t[0])[0],
        str_body_at(s, i + esc_char(t[0]).len(), t.drop_first()),
{
    assert(esc_str(t) == esc_char(t[0]) + esc_str(t.drop_first()));
    lemma_subrange_concat(s, i, esc_char(t[0]), esc_str(t.drop_first()));
    lemma_esc_char_shape(t[0]);
    assert(s[i] == s.subrange(i, i + esc_char(t[0]).len() as int)[0]);
}

/// Parses the body of a JSON string from position `i` (just after the
/// opening quote) through the closing quote, appending the unescaped
/// content to `acc`; returns the position after the closing quote.
#[verifier::rlimit(100)]
fn parse_string_body(s: &Vec<char>, i: usize, acc: &mut Vec<char>) -> (r: Option<usize>)
    requires
        i <= s@.len(),
    ensures
        r is Some ==> i < r.unwrap() <= s@.len(),
        forall|t: Seq<char>|
            str_body_at(s@, i as int, t) ==> r == Some((i + esc_str(t).len() + 1) as usize)
                && final(acc)@ == old(acc)@ + t,
    decreases s@.len() - i,
{
    let len = s.len();
    if i >= len {
        return None;
    }
    let c = s[i];
    if c == '"' {
        proof {
            assert forall|t: Seq<char>|
                str_body_at(s@, i as int, t) implies t.len() == 0 by {
                if t.len() > 0 {
                    lemma_str_body_step(s@, i as int, t);
                    lemma_esc_char_shape(t[0]);
                    assert(('"' as u32) == 34 && ('\\' as u32) == 92);
                }
            }
            assert forall|t: Seq<char>|
                str_body_at(s@, i as int, t) implies esc_str(t).len() == 0 && acc@ == acc@ + t by {
                assert(t.len() == 0);
                assert(acc@ + t =~= acc@);
            }
        }
        return Some(i + 1);
    }
    if c == '\\' {
        if i + 1 >= len {
            proof {
                assert forall|t: Seq<char>| !str_body_at(s@, i as int, t) by {
                    if str_body_at(s@, i as int, t) {
                        if t.len() == 0 {
                            assert(s@[i as int] == '"');
                        } else {
                            lemma_str_body_step(s@, i as int, t);
                            lemma_esc_char_shape(t[0]);
                            assert(esc_char(t[0]).len() >= 2);
                        }
                    }
                }
            }
            return None;
        }
        let e = s[i + 1];
        let ghost old_acc = acc@;
        let (u, step): (char, usize) = if e == '"' {
            ('"', 2)
        } else if e == '\\' {
            ('\\', 2)
        } else if e == '/' {
            ('/', 2)
        } else if e == 'n' {
            ('\n', 2)
        } else if e == 't' {
            ('\t', 2)
        } else if e == 'r' {
            ('\r', 2)
        } else if e == 'b' {
            ('\u{8}', 2)
        } else if e == 'f' {
            ('\u{c}', 2)
        } else if e == 'u' {
            if len - i < 6 {
                proof {
                    lemma_no_long_escape(s@, i as int);
                }
                return None;
            }
            let h0 = s[i + 2];
            let h1 = s[i + 3];
            let h2 = s[i + 4];
            let h3 = s[i + 5];
            if h0 != '0' || h1 != '0' {
                proof {
                    lemma_no_long_escape(s@, i as int);
                }
                return None;
            }
            let v2 = hex_val(h2);
            let v3 = hex_val(h3);
            if v2 > 15 || v3 > 15 {
                proof {
                    lemma_no_long_escape(s@, i as int);
                }
                return None;
            }
            let code: u32 = ((v2 as u32) * 16) + (v3 as u32);
            let u0: char = (code as u8) as char;
            proof {
                assert(u0 as u32 == code);
                assert(hex_digit_val(h2) == v2 && hex_digit_val(h3) == v3);
            }
            (u0, 6)
        } else {
            proof {
                lemma_no_long_escape(s@, i as int);
            }
            return None;
        };
        acc.push(u);
        let r = parse_string_body(s, i + step, acc);
        proof {
            assert forall|t: Seq<char>|
                str_body_at(s@, i as int, t) implies r == Some(
                (i + esc_str(t).len() + 1) as usize,
            ) && acc@ == old_acc + t by {
                lemma_escape_head(s@, i as int, t, u, step as int);
                let t1 = t.drop_first();
                assert(str_body_at(s@, i + step, t1));
                assert(acc@ == (old_acc + seq![t[0]]) + t1);
                assert(old_acc + seq![t[0]] + t1 =~= old_acc + t);
                assert(esc_str(t).len() == step + esc_str(t1).len());
            }
        }
        proof {
            assert(old_acc == old(acc)@);
            assert forall|t: Seq<char>|
                str_body_at(s@, i as int, t) implies acc@ == old(acc)@ + t by {
                assert(str_body_at(s@, i as int, t));
            }
            assert forall|t: Seq<char>|
                str_body_at(s@, i as int, t) implies r == Some(
                (i + esc_str(t).len() + 1) as usize,
            ) by {
                assert(str_body_at(s@, i as int, t));
            }
        }
        r

    } else {
        let ghost old_acc = acc@;
        acc.push(c);
        let r = parse_string_body(s, i + 1, acc);
        proof {
            assert forall|t: Seq<char>|
                str_body_at(s@, i as int, t) implies r == Some(
                (i + esc_str(t).len() + 1) as usize,
            ) && acc@ == old_acc + t by {
                lemma_plain_head(s@, i as int, t, c);
                let t1 = t.drop_first();
                assert(str_body_at(s@, i + 1, t1));
                assert(old_acc + seq![t[0]] + t1 =~= old_acc + t);
            }
        }
        proof {
            assert(old_acc == old(acc)@);
            assert forall|t: Seq<char>|
                str_body_at(s@, i as int, t) implies acc@ == old(acc)@ + t by {
                assert(str_body_at(s@, i as int, t));
            }
            assert forall|t: Seq<char>|
                str_body_at(s@, i as int, t) implies r == Some(
                (i + esc_str(t).len() + 1) as usize,
            ) by {
                assert(str_body_at(s@, i as int, t));
            }
        }
        r

    }
}

/// Hexadecimal value of `c`, or 16 if `c` is not a hex digit.
fn hex_val(c: char) -> (r: u8)
    ensures
        is_digit(c) ==> r == c as u32 - 48,
        97 <= c as u32 <= 102 ==> r == c as u32 - 97 + 10,
        65 <= c as u32 <= 70 ==> r == c as u32 - 65 + 10,
        !(is_digit(c) || 97 <= c as u32 <= 102 || 65 <= c as u32 <= 70) ==> r == 16,
{
    let v = c as u32;
    if 48 <= v && v <= 57 {
        (v - 48) as u8
    } else if 97 <= v && v <= 102 {
        (v - 97 + 10) as u8
    } else if 65 <= v && v <= 70 {
        (v - 65 + 10) as u8
    } else {
        16
    }
}

/// Where a backslash escape at `i` begins some content `t`, the head
/// character of `t` and the width of its escape are determined by the
/// characters of `s`; `u` and `step` computed from those characters are
/// correct for every such `t`.
proof fn lemma_escape_head(s: Seq<char>, i: int, t: Seq<char>, u: char, step: int)
    requires
        str_body_at(s, i, t),
        t.len() > 0,
        s[i] == '\\',
        step == 2 || step == 6,
        step == 2 ==> i + 1 < s.len() && match s[i + 1] {
            '"' => u == '"',
            '\\' => u == '\\',
            _ => !(s[i + 1] == '"' || s[i + 1] == '\\' || s[i + 1] == 'u'),
        },
        step == 6 ==> i + 5 < s.len() && s[i + 1] == 'u' && s[i + 2] == '0' && s[i + 3] == '0'
            && u as u32 == hex_digit_val(s[i + 4]) * 16 + hex_digit_val(s[i + 5]) && (u as u32)
            < 0x100,
    ensures
        t[0] == u,
        esc_char(t[0]).len() == step,
        str_body_at(s, i + step, t.drop_first()),
        esc_str(t).len() == step + esc_str(t.drop_first()).len(),
{
    lemma_str_body_step(s, i, t);
    lemma_esc_char_shape(t[0]);
    let h = t[0];
    if h == '"' || h == '\\' {
        assert(s[i + 1] == esc_char(h)[1]) by {
            assert(s[i + 1] == s.subrange(i, i + esc_char(h).len() as int)[1]);
        }
        assert(esc_char(h).len() == 2);
        assert(u == h);
        assert(step == 2);
    } else if (h as u32) < 0x20 {
        assert(esc_char(h).len() == 6);
        assert(s[i + 1] == esc_char(h)[1] && s[i + 2] == esc_char(h)[2] && s[i + 3] == esc_char(
            h,
        )[3] && s[i + 4] == esc_char(h)[4] && s[i + 5] == esc_char(h)[5]) by {
            let e = esc_char(h);
            assert forall|q: int| 0 <= q < 6 implies s[i + q] == e[q] by {
                assert(s[i + q] == s.subrange(i, i + e.len() as int)[q]);
            }
        }
        assert(s[i + 1] == 'u');
        assert(step == 6);
        let hi = (h as u32 / 16) as int;
        let lo = (h as u32 % 16) as int;
        lemma_hex_digit_val(hi);
        lemma_hex_digit_val(lo);
        assert(hex_digit_val(s[i + 4]) == hi && hex_digit_val(s[i + 5]) == lo);
        assert(u as u32 == h as u32);
        vstd::utf8::char_u32_cast(h, h as u32);
        vstd::utf8::char_u32_cast(u, u as u32);
        assert(u == h);
    } else {
        assert(esc_char(h) == seq![h]);
        assert(s[i] == h);
        assert(false);
    }
}

/// Hexadecimal value of a hex digit character in specification form.
pub open spec fn hex_digit_val(c: char) -> int {
    if 48 <= c as u32 <= 57 {
        c as u32 - 48
    } else if 97 <= c as u32 <= 102 {
        c as u32 - 97 + 10
    } else if 65 <= c as u32 <= 70 {
        c as u32 - 65 + 10
    } else {
        16
    }
}

/// `hex_char` produces a character whose hex value is its argument.
proof fn lemma_hex_digit_val(d: int)
    requires
        0 <= d <= 15,
    ensures
        hex_digit_val(hex_char(d)) == d,
{
    if d < 10 {
        assert(((48 + d) as u8) as char as u32 == 48 + d);
    } else {
        assert(((97 + (d - 10)) as u8) as char as u32 == 97 + (d - 10));
    }
}

/// Where the characters at `i` match no escape the serializer emits, no
/// string content lies at `i`.
proof fn lemma_no_long_escape(s: Seq<char>, i: int)
    requires
        0 <= i < s.len(),
        s[i] == '\\',
        i + 1 < s.len() ==> (s[i + 1] != '"' && s[i + 1] != '\\') && (s[i + 1] == 'u' ==> !(i + 5
            < s.len() && s[i + 2] == '0' && s[i + 3] == '0' && 0 <= hex_digit_val(s[i + 4]) <= 15
            && 0 <= hex_digit_val(s[i + 5]) <= 15)),
    ensures
        forall|t: Seq<char>| !str_body_at(s, i, t),
{
    assert forall|t: Seq<char>| !str_body_at(s, i, t) by {
        if str_body_at(s, i, t) {
            if t.len() == 0 {
                assert(s[i] == '"');
            } else {
                lemma_str_body_step(s, i, t);
                lemma_esc_char_shape(t[0]);
                let h = t[0];
                let e = esc_char(h);
                assert forall|q: int| 0 <= q < e.len() implies s[i + q] == e[q] by {
                    assert(s[i + q] == s.subrange(i, i + e.len() as int)[q]);
                }
                if h == '"' || h == '\\' {
                    assert(s[i + 1] == e[1]);
                    assert(false);
                } else if (h as u32) < 0x20 {
                    assert(s[i + 1] == 'u' && s[i + 2] == '0' && s[i + 3] == '0');
                    let hi = (h as u32 / 16) as int;
                    let lo = (h as u32 % 16) as int;
                    lemma_hex_digit_val(hi);
                    lemma_hex_digit_val(lo);
                    assert(s[i + 4] == hex_char(hi) && s[i + 5] == hex_char(lo));
                    assert(false);
                } else {
                    assert(s[i] == h);
                    assert(false);
                }
            }
        }
    }
}

/// Where a plain (unescaped) character `c` stands at `i`, the content at
/// `i` begins with `c` itself.
proof fn lemma_plain_head(s: Seq<char>, i: int, t: Seq<char>, c: char)
    requires
        str_body_at(s, i, t),
        0 <= i < s.len(),
        s[i] == c,
        c != '"',
        c != '\\',
    ensures
        t.len() > 0,
        t[0] == c,
        esc_char(t[0]) == seq![c],
        str_body_at(s, i + 1, t.drop_first()),
        esc_str(t).len() == 1 + esc_str(t.drop_first()).len(),
{
    if t.len() == 0 {
        assert(s[i] == '"');
    }
    lemma_str_body_step(s, i, t);
    lemma_esc_char_shape(t[0]);
    if t[0] == '"' || t[0] == '\\' || (t[0] as u32) < 0x20 {
        assert(s[i] == '\\');
        assert(false);
    }
    assert(t[0] == c);
}

/// True when the serializations of `items` (at least one), separated by
/// commas, lie at position `i` of `s`, terminated by a closing bracket.
pub open spec fn items_tail_at(s: Seq<char>, i: int, items: Seq<JsonV>) -> bool {
    &&& 0 <= i
    &&& i + ser_items(items).len() < s.len()
    &&& s.subrange(i, i + ser_items(items).len() as int) == ser_items(items)
    &&& s[i + ser_items(items).len()] == ']'
}

/// True when the serializations of `fields` (at least one), separated by
/// commas, lie at position `i` of `s`, terminated by a closing brace.
pub open spec fn fields_tail_at(s: Seq<char>, i: int, fields: Seq<(Seq<char>, JsonV)>) -> bool {
    &&& 0 <= i
    &&& i + ser_fields(fields).len() < s.len()
    &&& s.subrange(i, i + ser_fields(fields).len() as int) == ser_fields(fields)
    &&& s[i + ser_fields(fields).len()] == '}'
}

/// A value at `i` puts its first character at `i`.
proof fn lemma_value_head(s: Seq<char>, i: int, v: JsonV)
    requires
        value_at(s, i, v),
        !(v is Num),
    ensures
        i < s.len(),
        ser(v).len() >= 1,
        s[i] == ser(v)[0],
{
    lemma_ser_first(v);
    assert(s[i] == s.subrange(i, i + ser(v).len() as int)[0]);
}

/// Every character of a serialized value at `i` is visible in `s`.
proof fn lemma_value_chars(s: Seq<char>, i: int, v: JsonV)
    requires
        value_at(s, i, v),
    ensures
        forall|q: int| 0 <= q < ser(v).len() ==> s[i + q] == #[trigger] ser(v)[q],
{
    assert forall|q: int| 0 <= q < ser(v).len() implies s[i + q] == #[trigger] ser(v)[q] by {
        assert(s[i + q] == s.subrange(i, i + ser(v).len() as int)[q]);
    }
}

/// `json_views` distributes over appending one element.
proof fn lemma_json_views_push(s: Seq<Json>, j: Json)
    ensures
        json_views(s.push(j)) == json_views(s) + seq![json_view(j)],
{
    lemma_json_views_index(s.push(j));
    lemma_json_views_index(s);
    assert(json_views(s.push(j)) =~= json_views(s) + seq![json_view(j)]);
}

/// `json_field_views` distributes over appending one member.
proof fn lemma_json_field_views_push(s: Seq<(String, Json)>, f: (String, Json))
    ensures
        json_field_views(s.push(f)) == json_field_views(s) + seq![(f.0@, json_view(f.1))],
{
    lemma_json_field_views_index(s.push(f));
    lemma_json_field_views_index(s);
    assert(json_field_views(s.push(f)) =~= json_field_views(s) + seq![(f.0@, json_view(f.1))]);
}

/// A nonempty element list starts with its first element's first
/// character; a nonempty member list starts with a quote.
proof fn lemma_ser_items_first(items: Seq<JsonV>)
    requires
        items.len() >= 1,
        !(items[0] is Num),
    ensures
        ser_items(items).len() >= ser(items[0]).len(),
        ser(items[0]).len() >= 1,
        ser_items(items)[0] == ser(items[0])[0],
        !is_delim(ser_items(items)[0]),
        !is_ws(ser_items(items)[0]),
{
    lemma_ser_first(items[0]);
}

proof fn lemma_ser_fields_first(fields: Seq<(Seq<char>, JsonV)>)
    requires
        fields.len() >= 1,
    ensures
        ser_fields(fields).len() >= ser_field(fields[0]).len(),
        ser_field(fields[0]).len() >= 3,
        ser_fields(fields)[0] == '"',
{
    assert(ser_field(fields[0])[0] == '"');
}

/// Decomposition of a nonempty comma-separated element list at `i`: its
/// first element is a value at `i`, and what follows it is either the
/// closing bracket or a comma and the remaining list.
proof fn lemma_items_tail_step(s: Seq<char>, i: int, items: Seq<JsonV>)
    requires
        items_tail_at(s, i, items),
        items.len() >= 1,
        !(items[0] is Num),
    ensures
        value_at(s, i, items[0]),
        items.len() == 1 ==> s[i + ser(items[0]).len()] == ']' && ser_items(items).len() == ser(
            items[0],
        ).len(),
        items.len() > 1 ==> s[i + ser(items[0]).len()] == ',' && items_tail_at(
            s,
            i + ser(items[0]).len() + 1,
            items.subrange(1, items.len() as int),
        ) && ser_items(items).len() == ser(items[0]).len() + 1 + ser_items(
            items.subrange(1, items.len() as int),
        ).len(),
{
    lemma_ser_first(items[0]);
    if items.len() == 1 {
        assert(ser_items(items) == ser(items[0]));
    } else {
        let rest = items.subrange(1, items.len() as int);
        assert(ser_items(items) == ser(items[0]) + seq![','] + ser_items(rest));
        lemma_subrange_concat(s, i, ser(items[0]) + seq![','], ser_items(rest));
        lemma_subrange_concat(s, i, ser(items[0]), seq![',']);
        assert(s[i + ser(items[0]).len()] == s.subrange(
            i + ser(items[0]).len() as int,
            i + ser(items[0]).len() + 1,
        )[0]);
        assert(s[i + ser(items[0]).len()] == ',');
        assert((',' as u32) == 44 && (']' as u32) == 93 && ('}' as u32) == 125);
    }
}

/// Decomposition of a nonempty comma-separated member list at `i`: its
/// first member is a quoted key, a colon, and a value, and what follows
/// is either the closing brace or a comma and the remaining list.
proof fn lemma_fields_tail_step(s: Seq<char>, i: int, fields: Seq<(Seq<char>, JsonV)>)
    requires
        fields_tail_at(s, i, fields),
        fields.len() >= 1,
    ensures
        ({
            let ek = esc_str(fields[0].0).len() as int;
            let fl = ser_field(fields[0]).len() as int;
            &&& s[i] == '"'
            &&& str_body_at(s, i + 1, fields[0].0)
            &&& s[i + 1 + ek + 1] == ':'
            &&& value_at(s, i + ek + 3, fields[0].1)
            &&& fl == ek + 3 + ser(fields[0].1).len()
            &&& (fields.len() == 1 ==> s[i + fl] == '}' && ser_fields(fields).len() == fl)
            &&& (fields.len() > 1 ==> s[i + fl] == ',' && fields_tail_at(
                s,
                i + fl + 1,
                fields.subrange(1, fields.len() as int),
            ) && ser_fields(fields).len() == fl + 1 + ser_fields(
                fields.subrange(1, fields.len() as int),
            ).len())
        }),
{
    let f0 = fields[0];
    let ek = esc_str(f0.0).len() as int;
    let fl = ser_field(f0).len() as int;
    assert(ser_field(f0) == seq!['"'] + esc_str(f0.0) + seq!['"', ':'] + ser(f0.1));
    let follow = if fields.len() == 1 {
        ']'
    } else {
        ','
    };
    if fields.len() == 1 {
        assert(ser_fields(fields) == ser_field(f0));
    } else {
        let rest = fields.subrange(1, fields.len() as int);
        assert(ser_fields(fields) == ser_field(f0) + seq![','] + ser_fields(rest));
        lemma_subrange_concat(s, i, ser_field(f0) + seq![','], ser_fields(rest));
        lemma_subrange_concat(s, i, ser_field(f0), seq![',']);
        assert(s[i + fl] == s.subrange(i + fl, i + fl + 1)[0]);
    }
    // the member itself lies at i..i+fl
    assert(s.subrange(i, i + fl) == ser_field(f0));
    lemma_subrange_concat(s, i, seq!['"'] + esc_str(f0.0) + seq!['"', ':'], ser(f0.1));
    lemma_subrange_concat(s, i, seq!['"'] + esc_str(f0.0), seq!['"', ':']);
    lemma_subrange_concat(s, i, seq!['"'], esc_str(f0.0));
    assert(s[i] == s.subrange(i, i + 1)[0]);
    assert(s[i + 1 + ek] == s.subrange(i + 1 + ek, i + 1 + ek + 2)[0]);
    assert(s[i + 1 + ek + 1] == s.subrange(i + 1 + ek, i + 1 + ek + 2)[1]);
    assert(value_at(s, i + ek + 3, f0.1)) by {
        assert(s.subrange(i + ek + 3, i + ek + 3 + ser(f0.1).len() as int) == ser(f0.1));
        if fields.len() == 1 {
            assert(s[i + ek + 3 + ser(f0.1).len()] == '}');
        } else {
            assert(s[i + ek + 3 + ser(f0.1).len()] == ',');
        }
    }
}

/// Parses one JSON value at position `i`: where the serialization of
/// some canonical value lies at `i` followed by a terminator or the end
/// of the input, it returns exactly that value and the position after
/// it. Whitespace between tokens and general JSON numbers are accepted
/// beyond that.
#[verifier::rlimit(100)]
pub fn parse_value(s: &Vec<char>, i: usize) -> (r: Option<(Json, usize)>)
    requires
        i <= s@.len(),
    ensures
        r is Some ==> i < r.unwrap().1 <= s@.len(),
        forall|v: JsonV|
            canonical(v) && value_at(s@, i as int, v) ==> r is Some && r.unwrap().0@ == v
                && r.unwrap().1 == i + ser(v).len(),
    decreases s@.len() - i, 0int,
{
    let len = s.len();
    if i >= len {
        proof {
            assert forall|v: JsonV| canonical(v) implies !value_at(s@, i as int, v) by {
                if value_at(s@, i as int, v) {
                    lemma_value_head(s@, i as int, v);
                }
            }
        }
        return None;
    }
    let c = s[i];
    proof {
        assert forall|v: JsonV|
            canonical(v) && value_at(s@, i as int, v) implies s@[i as int] == ser(v)[0] && ser(
            v,
        ).len() >= 1 by {
            lemma_value_head(s@, i as int, v);
        }
    }
    if c == 'n' {
        if len - i >= 4 && s[i + 1] == 'u' && s[i + 2] == 'l' && s[i + 3] == 'l' {
            proof {
                assert forall|v: JsonV|
                    canonical(v) && value_at(s@, i as int, v) implies JsonV::Null == v && 4
                    == ser(v).len() by {
                    lemma_ser_first(v);
                }
            }
            Some((Json::Null, i + 4))
        } else {
            proof {
                assert forall|v: JsonV| canonical(v) implies !value_at(s@, i as int, v) by {
                    if value_at(s@, i as int, v) {
                        lemma_ser_first(v);
                        lemma_value_chars(s@, i as int, v);
                    }
                }
            }
            None
        }
    } else if c == 't' {
        if len - i >= 4 && s[i + 1] == 'r' && s[i + 2] == 'u' && s[i + 3] == 'e' {
            proof {
                assert forall|v: JsonV|
                    canonical(v) && value_at(s@, i as int, v) implies JsonV::Bool(true) == v && 4
                    == ser(v).len() by {
                    lemma_ser_first(v);
                    lemma_value_chars(s@, i as int, v);
                }
            }
            Some((Json::Bool(true), i + 4))
        } else {
            proof {
                assert forall|v: JsonV| canonical(v) implies !value_at(s@, i as int, v) by {
                    if value_at(s@, i as int, v) {
                        lemma_ser_first(v);
                        lemma_value_chars(s@, i as int, v);
                    }
                }
            }
            None
        }
    } else if c == 'f' {
        if len - i >= 5 && s[i + 1] == 'a' && s[i + 2] == 'l' && s[i + 3] == 's' && s[i + 4]
            == 'e' {
            proof {
                assert forall|v: JsonV|
                    canonical(v) && value_at(s@, i as int, v) implies JsonV::Bool(false) == v && 5
                    == ser(v).len() by {
                    lemma_ser_first(v);
                    lemma_value_chars(s@, i as int, v);
                }
            }
            Some((Json::Bool(false), i + 5))
        } else {
            proof {
                assert forall|v: JsonV| canonical(v) implies !value_at(s@, i as int, v) by {
                    if value_at(s@, i as int, v) {
                        lemma_ser_first(v);
                        lemma_value_chars(s@, i as int, v);
                    }
                }
            }
            None
        }
    } else if c == '-' || (48 <= c as u32 && c as u32 <= 57) {
        let ri = parse_number(s, i);
        proof {
            assert forall|v: JsonV|
                canonical(v) && value_at(s@, i as int, v) implies ri is Some && ri.unwrap().0@
                == v && ri.unwrap().1 == i + ser(v).len() by {
                lemma_ser_first(v);
            }
        }
        ri
    } else if c == '"' {
        let mut content: Vec<char> = Vec::new();
        let rs = parse_string_body(s, i + 1, &mut content);
        proof {
            assert forall|v: JsonV|
                canonical(v) && value_at(s@, i as int, v) implies v is Text && rs == Some(
                (i + ser(v).len()) as usize,
            ) && content@ == v->Text_0 by {
                lemma_ser_first(v);
                let t = v->Text_0;
                assert(ser(v) == seq!['"'] + esc_str(t) + seq!['"']);
                lemma_subrange_concat(
                    s@,
                    i as int,
                    seq!['"'] + esc_str(t),
                    seq!['"'],
                );
                lemma_subrange_concat(s@, i as int, seq!['"'], esc_str(t));
                assert(s@[i + 1 + esc_str(t).len()] == s@.subrange(
                    i + 1 + esc_str(t).len() as int,
                    i + 2 + esc_str(t).len() as int,
                )[0]);
                assert(str_body_at(s@, i + 1, t));
            }
        }
        match rs {
            Some(j) => Some((Json::Text(chars_to_string(&content)), j)),
            None => None,
        }
    } else if c == '[' {
        let j0 = skip_ws(s, i + 1);
        if j0 < len && s[j0] == ']' {
            proof {
                assert forall|v: JsonV|
                    canonical(v) && value_at(s@, i as int, v) implies JsonV::Arr(
                    Seq::<JsonV>::empty(),
                ) == v && 2 == ser(v).len() && j0 == i + 1 by {
                    lemma_ser_first(v);
                    lemma_value_chars(s@, i as int, v);
                    let items = v->Arr_0;
                    if items.len() > 0 {
                        lemma_canonical_items_index(items, 0);
                        lemma_ser_items_first(items);
                        assert(s@[i + 1] == ser(v)[1]);
                        assert(ser(v)[1] == ser_items(items)[0]);
                        if j0 > i + 1 {
                            assert(is_ws(s@[i + 1]));
                        }
                        assert(j0 == i + 1);
                        assert(false);
                    }
                    assert(items =~= Seq::<JsonV>::empty());
                    assert(ser(v) =~= seq!['[', ']']);
                    assert(s@[i + 1] == ser(v)[1]);
                    if j0 > i + 1 {
                        assert(is_ws(s@[i + 1]));
                    }
                }
            }
            Some((Json::Arr(Vec::new()), j0 + 1))
        } else {
            let mut elems: Vec<Json> = Vec::new();
            let re = parse_items_rest(s, j0, &mut elems);
            proof {
                assert(json_views(Seq::<Json>::empty()) =~= Seq::<JsonV>::empty());
                assert forall|v: JsonV|
                    canonical(v) && value_at(s@, i as int, v) implies v is Arr && re == Some(
                    (i + ser(v).len()) as usize,
                ) && json_views(elems@) == v->Arr_0 by {
                    lemma_ser_first(v);
                    lemma_value_chars(s@, i as int, v);
                    let items = v->Arr_0;
                    assert(ser(v) == seq!['['] + ser_items(items) + seq![']']);
                    if items.len() == 0 {
                        assert(ser(v) =~= seq!['[', ']']);
                        assert(s@[i + 1] == ser(v)[1]);
                        if j0 > i + 1 {
                            assert(is_ws(s@[i + 1]));
                        }
                        assert(j0 == i + 1);
                        assert(false);
                    }
                    lemma_canonical_items_index(items, 0);
                    lemma_ser_items_first(items);
                    lemma_subrange_concat(
                        s@,
                        i as int,
                        seq!['['] + ser_items(items),
                        seq![']'],
                    );
                    lemma_subrange_concat(s@, i as int, seq!['['], ser_items(items));
                    assert(s@[i + 1 + ser_items(items).len()] == s@.subrange(
                        i + 1 + ser_items(items).len() as int,
                        i + 2 + ser_items(items).len() as int,
                    )[0]);
                    assert(items_tail_at(s@, i + 1, items));
                    assert(s@[i + 1] == ser(v)[1]);
                    assert(ser(v)[1] == ser_items(items)[0]);
                    if j0 > i + 1 {
                        assert(is_ws(s@[i + 1]));
                    }
                    assert(j0 == i + 1);
                    assert(canonical_items(items));
                    assert(items_tail_at(s@, j0 as int, items));
                    assert(Seq::<JsonV>::empty() + items =~= items);
                }
            }
            match re {
                Some(j) => Some((Json::Arr(elems), j)),
                None => None,
            }
        }
    } else if c == '{' {
        let j0 = skip_ws(s, i + 1);
        if j0 < len && s[j0] == '}' {
            proof {
                assert forall|v: JsonV|
                    canonical(v) && value_at(s@, i as int, v) implies JsonV::Obj(
                    Seq::<(Seq<char>, JsonV)>::empty(),
                ) == v && 2 == ser(v).len() && j0 == i + 1 by {
                    lemma_ser_first(v);
                    lemma_value_chars(s@, i as int, v);
                    let fields = v->Obj_0;
                    if fields.len() > 0 {
                        lemma_ser_fields_first(fields);
                        assert(s@[i + 1] == ser(v)[1]);
                        assert(ser(v)[1] == ser_fields(fields)[0]);
                        if j0 > i + 1 {
                            assert(is_ws(s@[i + 1]));
                        }
                        assert(j0 == i + 1);
                        assert(false);
                    }
                    assert(fields =~= Seq::<(Seq<char>, JsonV)>::empty());
                    assert(ser(v) =~= seq!['{', '}']);
                    assert(s@[i + 1] == ser(v)[1]);
                    if j0 > i + 1 {
                        assert(is_ws(s@[i + 1]));
                    }
                }
            }
            Some((Json::Obj(Vec::new()), j0 + 1))
        } else {
            let mut members: Vec<(String, Json)> = Vec::new();
            let re = parse_fields_rest(s, j0, &mut members);
            proof {
                assert(json_field_views(Seq::<(String, Json)>::empty()) =~= Seq::<
                    (Seq<char>, JsonV),
                >::empty());
                assert forall|v: JsonV|
                    canonical(v) && value_at(s@, i as int, v) implies v is Obj && re == Some(
                    (i + ser(v).len()) as usize,
                ) && json_field_views(members@) == v->Obj_0 by {
                    lemma_ser_first(v);
                    lemma_value_chars(s@, i as int, v);
                    let fields = v->Obj_0;
                    assert(ser(v) == seq!['{'] + ser_fields(fields) + seq!['}']);
                    if fields.len() == 0 {
                        assert(ser(v) =~= seq!['{', '}']);
                        assert(s@[i + 1] == ser(v)[1]);
                        if j0 > i + 1 {
                            assert(is_ws(s@[i + 1]));
                        }
                        assert(j0 == i + 1);
                        assert(false);
                    }
                    lemma_ser_fields_first(fields);
                    lemma_subrange_concat(
                        s@,
                        i as int,
                        seq!['{'] + ser_fields(fields),
                        seq!['}'],
                    );
                    lemma_subrange_concat(s@, i as int, seq!['{'], ser_fields(fields));
                    assert(s@[i + 1 + ser_fields(fields).len()] == s@.subrange(
                        i + 1 + ser_fields(fields).len() as int,
                        i + 2 + ser_fields(fields).len() as int,
                    )[0]);
                    assert(fields_tail_at(s@, i + 1, fields));
                    assert(s@[i + 1] == ser(v)[1]);
                    assert(ser(v)[1] == ser_fields(fields)[0]);
                    if j0 > i + 1 {
                        assert(is_ws(s@[i + 1]));
                    }
                    assert(j0 == i + 1);
                    assert(canonical_fields(fields));
                    assert(fields_tail_at(s@, j0 as int, fields));
                    assert(Seq::<(Seq<char>, JsonV)>::empty() + fields =~= fields);
                }
            }
            match re {
                Some(j) => Some((Json::Obj(members), j)),
                None => None,
            }
        }
    } else {
        proof {
            assert forall|v: JsonV| canonical(v) implies !value_at(s@, i as int, v) by {
                if value_at(s@, i as int, v) {
                    lemma_ser_first(v);
                }
            }
        }
        None
    }
}

/// Parses the elements of a nonempty array from position `i` (at or
/// after the opening bracket or a separating comma) through the closing
/// bracket, appending the elements to `out`; returns the position after
/// the closing bracket.
#[verifier::rlimit(100)]
fn parse_items_rest(s: &Vec<char>, i: usize, out: &mut Vec<Json>) -> (r: Option<usize>)
    requires
        i <= s@.len(),
    ensures
        r is Some ==> i < r.unwrap() <= s@.len(),
        forall|items: Seq<JsonV>|
            items.len() >= 1 && canonical_items(items) && items_tail_at(s@, i as int, items)
                ==> r == Some((i + ser_items(items).len() + 1) as usize) && json_views(
                final(out)@,
            ) == json_views(old(out)@) + items,
    decreases s@.len() - i, 1int,
{
    let len = s.len();
    let i0 = skip_ws(s, i);
    proof {
        assert forall|items: Seq<JsonV>|
            items.len() >= 1 && canonical_items(items) && items_tail_at(s@, i as int, items)
                implies i0 == i by {
            lemma_canonical_items_index(items, 0);
            lemma_items_tail_step(s@, i as int, items);
            lemma_ser_items_first(items);
            assert(s@[i as int] == s@.subrange(i as int, i + ser_items(items).len() as int)[0]);
            if i0 > i {
                assert(is_ws(s@[i as int]));
            }
        }
    }
    let r0 = parse_value(s, i0);
    let (v1, j) = match r0 {
        Some(p) => p,
        None => {
            proof {
                assert forall|items: Seq<JsonV>|
                    !(items.len() >= 1 && canonical_items(items) && items_tail_at(
                        s@,
                        i as int,
                        items,
                    )) by {
                    if items.len() >= 1 && canonical_items(items) && items_tail_at(
                        s@,
                        i as int,
                        items,
                    ) {
                        lemma_canonical_items_index(items, 0);
                        lemma_items_tail_step(s@, i as int, items);
                    }
                }
            }
            return None;
        },
    };
    proof {
        assert forall|items: Seq<JsonV>|
            items.len() >= 1 && canonical_items(items) && items_tail_at(s@, i as int, items)
                implies v1@ == items[0] && j == i + ser(items[0]).len() by {
            lemma_canonical_items_index(items, 0);
            lemma_items_tail_step(s@, i as int, items);
        }
    }
    let j2 = skip_ws(s, j);
    proof {
        assert forall|items: Seq<JsonV>|
            items.len() >= 1 && canonical_items(items) && items_tail_at(s@, i as int, items)
                implies j2 == j by {
            lemma_canonical_items_index(items, 0);
            lemma_items_tail_step(s@, i as int, items);
            assert((' ' as u32) == 32 && ('\t' as u32) == 9 && ('\n' as u32) == 10 && ('\r'
                as u32) == 13);
            assert((',' as u32) == 44 && (']' as u32) == 93);
            if j2 > j {
                assert(is_ws(s@[j as int]));
            }
        }
    }
    if j2 >= len {
        proof {
            assert forall|items: Seq<JsonV>|
                !(items.len() >= 1 && canonical_items(items) && items_tail_at(
                    s@,
                    i as int,
                    items,
                )) by {
                if items.len() >= 1 && canonical_items(items) && items_tail_at(
                    s@,
                    i as int,
                    items,
                ) {
                    lemma_canonical_items_index(items, 0);
                    lemma_items_tail_step(s@, i as int, items);
                }
            }
        }
        return None;
    }
    let c = s[j2];
    let ghost old_out = out@;
    if c == ',' {
        out.push(v1);
        proof {
            lemma_json_views_push(old_out, v1);
        }
        let r2 = parse_items_rest(s, j2 + 1, out);
        proof {
            assert forall|items: Seq<JsonV>|
                items.len() >= 1 && canonical_items(items) && items_tail_at(s@, i as int, items)
                    implies r2 == Some((i + ser_items(items).len() + 1) as usize) && json_views(
                out@,
            ) == json_views(old_out) + items by {
                lemma_canonical_items_index(items, 0);
                lemma_items_tail_step(s@, i as int, items);
                let rest = items.subrange(1, items.len() as int);
                if items.len() == 1 {
                    assert(s@[j as int] == ']');
                } else {
                    assert(items_tail_at(s@, j + 1, rest));
                    assert(canonical_items(rest));
                    assert(rest.len() >= 1);
                    assert(json_views(out@) == (json_views(old_out) + seq![json_view(v1)])
                        + rest);
                    assert((json_views(old_out) + seq![items[0]]) + rest =~= json_views(old_out)
                        + items);
                }
            }
            assert(old_out == old(out)@);
            assert forall|items: Seq<JsonV>|
                items.len() >= 1 && canonical_items(items) && items_tail_at(s@, i as int, items)
                    implies json_views(out@) == json_views(old(out)@) + items by {
                assert(items_tail_at(s@, i as int, items));
            }
            assert forall|items: Seq<JsonV>|
                items.len() >= 1 && canonical_items(items) && items_tail_at(s@, i as int, items)
                    implies r2 == Some((i + ser_items(items).len() + 1) as usize) by {
                assert(items_tail_at(s@, i as int, items));
            }
        }
        r2
    } else if c == ']' {
        out.push(v1);
        proof {
            lemma_json_views_push(old_out, v1);
            assert forall|items: Seq<JsonV>|
                items.len() >= 1 && canonical_items(items) && items_tail_at(s@, i as int, items)
                    implies j2 + 1 == i + ser_items(items).len() + 1 && json_views(out@)
                == json_views(old_out) + items by {
                lemma_canonical_items_index(items, 0);
                lemma_items_tail_step(s@, i as int, items);
                if items.len() > 1 {
                    assert(s@[j as int] == ',');
                }
                assert(json_views(old_out) + seq![items[0]] =~= json_views(old_out) + items);
            }
            assert(old_out == old(out)@);
            assert forall|items: Seq<JsonV>|
                items.len() >= 1 && canonical_items(items) && items_tail_at(s@, i as int, items)
                    implies json_views(out@) == json_views(old(out)@) + items by {
                assert(items_tail_at(s@, i as int, items));
            }
        }
        Some(j2 + 1)
    } else {
        proof {
            assert forall|items: Seq<JsonV>|
                !(items.len() >= 1 && canonical_items(items) && items_tail_at(
                    s@,
                    i as int,
                    items,
                )) by {
                if items.len() >= 1 && canonical_items(items) && items_tail_at(
                    s@,
                    i as int,
                    items,
                ) {
                    lemma_canonical_items_index(items, 0);
                    lemma_items_tail_step(s@, i as int, items);
                }
            }
        }
        None
    }
}

/// Parses the members of a nonempty object from position `i` (at or
/// after the opening brace or a separating comma) through the closing
/// brace, appending the members to `out`; returns the position after
/// the closing brace.
#[verifier::rlimit(100)]
fn parse_fields_rest(s: &Vec<char>, i: usize, out: &mut Vec<(String, Json)>) -> (r: Option<usize>)
    requires
        i <= s@.len(),
    ensures
        r is Some ==> i < r.unwrap() <= s@.len(),
        forall|fields: Seq<(Seq<char>, JsonV)>|
            fields.len() >= 1 && canonical_fields(fields) && fields_tail_at(s@, i as int, fields)
                ==> r == Some((i + ser_fields(fields).len() + 1) as usize) && json_field_views(
                final(out)@,
            ) == json_field_views(old(out)@) + fields,
    decreases s@.len() - i, 1int,
{
    let len = s.len();
    let i0 = skip_ws(s, i);
    proof {
        assert forall|fields: Seq<(Seq<char>, JsonV)>|
            fields.len() >= 1 && canonical_fields(fields) && fields_tail_at(s@, i as int, fields)
                implies i0 == i by {
            lemma_fields_tail_step(s@, i as int, fields);
            if i0 > i {
                assert(is_ws(s@[i as int]));
            }
        }
    }
    if i0 >= len || s[i0] != '"' {
        proof {
            assert forall|fields: Seq<(Seq<char>, JsonV)>|
                !(fields.len() >= 1 && canonical_fields(fields) && fields_tail_at(
                    s@,
                    i as int,
                    fields,
                )) by {
                if fields.len() >= 1 && canonical_fields(fields) && fields_tail_at(
                    s@,
                    i as int,
                    fields,
                ) {
                    lemma_fields_tail_step(s@, i as int, fields);
                }
            }
        }
        return None;
    }
    let mut key_chars: Vec<char> = Vec::new();
    let rk = parse_string_body(s, i0 + 1, &mut key_chars);
    let j = match rk {
        Some(j) => j,
        None => {
            proof {
                assert forall|fields: Seq<(Seq<char>, JsonV)>|
                    !(fields.len() >= 1 && canonical_fields(fields) && fields_tail_at(
                        s@,
                        i as int,
                        fields,
                    )) by {
                    if fields.len() >= 1 && canonical_fields(fields) && fields_tail_at(
                        s@,
                        i as int,
                        fields,
                    ) {
                        lemma_fields_tail_step(s@, i as int, fields);
                    }
                }
            }
            return None;
        },
    };
    proof {
        assert forall|fields: Seq<(Seq<char>, JsonV)>|
            fields.len() >= 1 && canonical_fields(fields) && fields_tail_at(s@, i as int, fields)
                implies key_chars@ == fields[0].0 && j == i + 1 + esc_str(fields[0].0).len()
            + 1 by {
            lemma_fields_tail_step(s@, i as int, fields);
        }
    }
    let j1 = skip_ws(s, j);
    proof {
        assert forall|fields: Seq<(Seq<char>, JsonV)>|
            fields.len() >= 1 && canonical_fields(fields) && fields_tail_at(s@, i as int, fields)
                implies j1 == j by {
            lemma_fields_tail_step(s@, i as int, fields);
            assert((':' as u32) == 58);
            assert((' ' as u32) == 32 && ('\t' as u32) == 9 && ('\n' as u32) == 10 && ('\r'
                as u32) == 13);
            if j1 > j {
                assert(is_ws(s@[j as int]));
            }
        }
    }
    if j1 >= len || s[j1] != ':' {
        proof {
            assert forall|fields: Seq<(Seq<char>, JsonV)>|
                !(fields.len() >= 1 && canonical_fields(fields) && fields_tail_at(
                    s@,
                    i as int,
                    fields,
                )) by {
                if fields.len() >= 1 && canonical_fields(fields) && fields_tail_at(
                    s@,
                    i as int,
                    fields,
                ) {
                    lemma_fields_tail_step(s@, i as int, fields);
                }
            }
        }
        return None;
    }
    let jv = skip_ws(s, j1 + 1);
    proof {
        assert forall|fields: Seq<(Seq<char>, JsonV)>|
            fields.len() >= 1 && canonical_fields(fields) && fields_tail_at(s@, i as int, fields)
                implies jv == j1 + 1 && canonical(fields[0].1) by {
            lemma_canonical_fields_index(fields, 0);
            lemma_fields_tail_step(s@, i as int, fields);
            lemma_value_head(s@, i + esc_str(fields[0].0).len() + 3, fields[0].1);
            lemma_ser_first(fields[0].1);
            if jv > j1 + 1 {
                assert(is_ws(s@[j1 + 1]));
            }
        }
    }
    let rv = parse_value(s, jv);
    let (v1, j2) = match rv {
        Some(p) => p,
        None => {
            proof {
                assert forall|fields: Seq<(Seq<char>, JsonV)>|
                    !(fields.len() >= 1 && canonical_fields(fields) && fields_tail_at(
                        s@,
                        i as int,
                        fields,
                    )) by {
                    if fields.len() >= 1 && canonical_fields(fields) && fields_tail_at(
                        s@,
                        i as int,
                        fields,
                    ) {
                        lemma_canonical_fields_index(fields, 0);
                        lemma_fields_tail_step(s@, i as int, fields);
                    }
                }
            }
            return None;
        },
    };
    proof {
        assert forall|fields: Seq<(Seq<char>, JsonV)>|
            fields.len() >= 1 && canonical_fields(fields) && fields_tail_at(s@, i as int, fields)
                implies v1@ == fields[0].1 && j2 == i + ser_field(fields[0]).len() by {
            lemma_canonical_fields_index(fields, 0);
            lemma_fields_tail_step(s@, i as int, fields);
        }
    }
    let j3 = skip_ws(s, j2);
    proof {
        assert forall|fields: Seq<(Seq<char>, JsonV)>|
            fields.len() >= 1 && canonical_fields(fields) && fields_tail_at(s@, i as int, fields)
                implies j3 == j2 by {
            lemma_canonical_fields_index(fields, 0);
            lemma_fields_tail_step(s@, i as int, fields);
            assert((',' as u32) == 44 && ('}' as u32) == 125);
            assert((' ' as u32) == 32 && ('\t' as u32) == 9 && ('\n' as u32) == 10 && ('\r'
                as u32) == 13);
            if j3 > j2 {
                assert(is_ws(s@[j2 as int]));
            }
        }
    }
    if j3 >= len {
        proof {
            assert forall|fields: Seq<(Seq<char>, JsonV)>|
                !(fields.len() >= 1 && canonical_fields(fields) && fields_tail_at(
                    s@,
                    i as int,
                    fields,
                )) by {
                if fields.len() >= 1 && canonical_fields(fields) && fields_tail_at(
                    s@,
                    i as int,
                    fields,
                ) {
                    lemma_canonical_fields_index(fields, 0);
                    lemma_fields_tail_step(s@, i as int, fields);
                }
            }
        }
        return None;
    }
    let c = s[j3];
    let ghost old_out = out@;
    let key = chars_to_string(&key_chars);
    if c == ',' {
        out.push((key, v1));
        proof {
            lemma_json_field_views_push(old_out, (key, v1));
        }
        let r2 = parse_fields_rest(s, j3 + 1, out);
        proof {
            assert forall|fields: Seq<(Seq<char>, JsonV)>|
                fields.len() >= 1 && canonical_fields(fields) && fields_tail_at(
                    s@,
                    i as int,
                    fields,
                ) implies r2 == Some((i + ser_fields(fields).len() + 1) as usize)
                && json_field_views(out@) == json_field_views(old_out) + fields by {
                lemma_canonical_fields_index(fields, 0);
                lemma_fields_tail_step(s@, i as int, fields);
                let rest = fields.subrange(1, fields.len() as int);
                if fields.len() == 1 {
                    assert(s@[j2 as int] == '}');
                } else {
                    assert(fields_tail_at(s@, j2 + 1, rest));
                    assert(canonical_fields(rest));
                    assert(json_field_views(out@) == (json_field_views(old_out) + seq![
                        (fields[0].0, fields[0].1),
                    ]) + rest);
                    assert((json_field_views(old_out) + seq![(fields[0].0, fields[0].1)]) + rest
                        =~= json_field_views(old_out) + fields);
                }
            }
            assert(old_out == old(out)@);
            assert forall|fields: Seq<(Seq<char>, JsonV)>|
                fields.len() >= 1 && canonical_fields(fields) && fields_tail_at(
                    s@,
                    i as int,
                    fields,
                ) implies json_field_views(out@) == json_field_views(old(out)@) + fields by {
                assert(fields_tail_at(s@, i as int, fields));
            }
            assert forall|fields: Seq<(Seq<char>, JsonV)>|
                fields.len() >= 1 && canonical_fields(fields) && fields_tail_at(
                    s@,
                    i as int,
                    fields,
                ) implies r2 == Some((i + ser_fields(fields).len() + 1) as usize) by {
                assert(fields_tail_at(s@, i as int, fields));
            }
        }
        r2
    } else if c == '}' {
        out.push((key, v1));
        proof {
            lemma_json_field_views_push(old_out, (key, v1));
            assert forall|fields: Seq<(Seq<char>, JsonV)>|
                fields.len() >= 1 && canonical_fields(fields) && fields_tail_at(
                    s@,
                    i as int,
                    fields,
                ) implies j3 + 1 == i + ser_fields(fields).len() + 1 && json_field_views(out@)
                == json_field_views(old_out) + fields by {
                lemma_canonical_fields_index(fields, 0);
                lemma_fields_tail_step(s@, i as int, fields);
                if fields.len() > 1 {
                    assert(s@[j2 as int] == ',');
                }
                assert(json_field_views(old_out) + seq![(fields[0].0, fields[0].1)]
                    =~= json_field_views(old_out) + fields);
            }
            assert(old_out == old(out)@);
            assert forall|fields: Seq<(Seq<char>, JsonV)>|
                fields.len() >= 1 && canonical_fields(fields) && fields_tail_at(
                    s@,
                    i as int,
                    fields,
                ) implies json_field_views(out@) == json_field_views(old(out)@) + fields by {
                assert(fields_tail_at(s@, i as int, fields));
            }
        }
        Some(j3 + 1)
    } else {
        proof {
            assert forall|fields: Seq<(Seq<char>, JsonV)>|
                !(fields.len() >= 1 && canonical_fields(fields) && fields_tail_at(
                    s@,
                    i as int,
                    fields,
                )) by {
                if fields.len() >= 1 && canonical_fields(fields) && fields_tail_at(
                    s@,
                    i as int,
                    fields,
                ) {
                    lemma_canonical_fields_index(fields, 0);
                    lemma_fields_tail_step(s@, i as int, fields);
                }
            }
        }
        None
    }
}

/// True when `t` is `body` with insignificant whitespace around it.
pub open spec fn ws_wrapped(t: Seq<char>, body: Seq<char>) -> bool {
    exists|a: int, b: int|
        {
            &&& 0 <= a <= b <= t.len()
            &&& t.subrange(a, b) == body
            &&& (forall|k: int| 0 <= k < a ==> is_ws(#[trigger] t[k]))
            &&& (forall|k: int| b <= k < t.len() ==> is_ws(#[trigger] t[k]))
        }
}

/// Parses a complete JSON document.
///
/// Law: parsing inverts serialization — for every canonical value `v`
/// (every value this library itself builds is one), the text `ser(v)`,
/// with any insignificant whitespace around it, parses to exactly `v`;
/// so a request body round-trips unchanged (and hence byte-for-byte on
/// re-serialization) through encode followed by decode. Beyond that the
/// parser also accepts whitespace between tokens, the common string
/// escapes, and general JSON numbers, which it carries verbatim as
/// their lexemes.
pub fn parse_json(text: &str) -> (r: Option<Json>)
    ensures
        forall|v: JsonV|
            canonical(v) && ws_wrapped(text@, ser(v)) ==> r is Some && r.unwrap()@ == v,
{
    let chars = str_chars(text);
    let start = skip_ws(&chars, 0);
    let rv = parse_value(&chars, start);
    proof {
        assert forall|v: JsonV|
            canonical(v) && ws_wrapped(text@, ser(v)) implies rv is Some && rv.unwrap().0@ == v
            && (forall|k: int|
            rv.unwrap().1 <= k < chars@.len() ==> is_ws(#[trigger] chars@[k])) by {
            let (a, b) = choose|a: int, b: int|
                {
                    &&& 0 <= a <= b <= text@.len()
                    &&& text@.subrange(a, b) == ser(v)
                    &&& (forall|k: int| 0 <= k < a ==> is_ws(#[trigger] text@[k]))
                    &&& (forall|k: int| b <= k < text@.len() ==> is_ws(#[trigger] text@[k]))
                };
            assert(b - a == ser(v).len());
            assert(value_at(chars@, a, v)) by {
                if b < chars@.len() {
                    assert(is_ws(chars@[b]));
                }
            }
            lemma_value_head(chars@, a, v);
            lemma_ser_first(v);
            assert(!is_ws(chars@[a]));
            if start > a {
                assert(is_ws(chars@[a]));
            }
            if start < a {
                assert(is_ws(chars@[start as int]));
            }
            assert(start == a);
            assert(rv is Some && rv.unwrap().0@ == v && rv.unwrap().1 == a + ser(v).len());
            assert forall|k: int|
                rv.unwrap().1 <= k < chars@.len() implies is_ws(#[trigger] chars@[k]) by {
                assert(k >= b);
            }
        }
    }
    match rv {
        Some((v, j)) => {
            let j2 = skip_ws(&chars, j);
            if j2 == chars.len() {
                Some(v)
            } else {
                proof {
                    assert forall|v2: JsonV|
                        !(canonical(v2) && ws_wrapped(text@, ser(v2))) by {
                        if canonical(v2) && ws_wrapped(text@, ser(v2)) {
                            assert(j2 == chars@.len());
                        }
                    }
                }
                None
            }
        },
        None => None,
    }
}

/// The canonical decimal text of `n`.
pub fn i64_string(n: i64) -> (r: String)
    ensures
        r@ == int_chars(n as int),
{
    let mut out: Vec<char> = Vec::new();
    write_i64_dec(n, &mut out);
    crate::text::chars_to_string(&out)
}

/// True when `s` is a minus sign (for a negative number) followed by one
/// or more decimal digits.
pub open spec fn is_decimal_text(s: Seq<char>) -> bool {
    ||| (s.len() >= 1 && forall|j: int| 0 <= j < s.len() ==> is_digit(#[trigger] s[j]))
    ||| (s.len() >= 2 && s[0] == '-' && forall|j: int| 1 <= j < s.len() ==> is_digit(
        #[trigger] s[j],
    ))
}

/// The integer value of a decimal text.
pub open spec fn decimal_value(s: Seq<char>) -> int {
    if s.len() >= 1 && s[0] == '-' {
        -(digits_val(s.skip(1)) as int)
    } else {
        digits_val(s) as int
    }
}

/// Parses a decimal text as an `i32`: succeeds exactly on an optional
/// minus sign followed by digits whose value fits in an `i32`.
pub fn parse_i32(s: &str) -> (r: Option<i32>)
    ensures
        r matches Some(n) ==> is_decimal_text(s@) && decimal_value(s@) == n,
        r is None ==> !is_decimal_text(s@) || decimal_value(s@) > i32::MAX
            || decimal_value(s@) < i32::MIN,
{
    let chars = crate::text::str_chars(s);
    let len = chars.len();
    if len == 0 {
        return None;
    }
    let neg = chars[0] == '-';
    let start: usize = if neg {
        1
    } else {
        0
    };
    if start >= len {
        return None;
    }
    let limit: u64 = if neg {
        2147483648
    } else {
        2147483647
    };
    let mut acc: u64 = 0;
    let mut p = start;
    proof {
        if neg {
            assert(s@.skip(1).subrange(0, 0) =~= s@.subrange(start as int, start as int));
        }
        assert(s@.subrange(start as int, start as int) =~= Seq::<char>::empty());
    }
    while p < len
        invariant
            chars@ == s@,
            len == s@.len(),
            start <= p <= len,
            start == if neg {
                1int
            } else {
                0int
            },
            neg ==> s@[0] == '-',
            !neg ==> s@[0] != '-',
            limit == if neg {
                2147483648u64
            } else {
                2147483647u64
            },
            forall|j: int| start <= j < p ==> is_digit(#[trigger] s@[j]),
            acc == digits_val(s@.subrange(start as int, p as int)),
            acc <= limit,
        decreases len - p,
    {
        let c = chars[p];
        if !(48 <= c as u32 && c as u32 <= 57) {
            return None;
        }
        let d: u32 = c as u32 - 48;
        let ghost pre = s@.subrange(start as int, p as int);
        proof {
            assert(s@.subrange(start as int, p + 1) =~= pre.push(s@[p as int]));
            lemma_digits_val_push(pre, s@[p as int]);
        }
        if acc > limit / 10 || acc * 10 > limit - d as u64 {
            proof {
                assert(digits_val(s@.subrange(start as int, p + 1)) > limit);
                if is_decimal_text(s@) {
                    let whole = if neg {
                        s@.skip(1)
                    } else {
                        s@
                    };
                    assert(s@.subrange(start as int, len as int) =~= whole);
                    assert(s@.subrange(start as int, p + 1) =~= whole.take(p + 1 - start));
                    lemma_digits_val_take_le(whole, p + 1 - start);
                }
            }
            return None;
        }
        acc = acc * 10 + d as u64;
        p += 1;
    }
    proof {
        assert(s@.subrange(start as int, len as int) =~= if neg {
            s@.skip(1)
        } else {
            s@
        });
    }
    if neg {
        if acc == 2147483648 {
            Some(i32::MIN)
        } else {
            Some(-(acc as i32))
        }
    } else {
        Some(acc as i32)
    }
}

/// The compact JSON text of `v`.
pub fn to_text(v: &Json) -> (r: String)
    ensures
        r@ == ser(v@),
{
    let mut out: Vec<char> = Vec::new();
    write_value(v, &mut out);
    chars_to_string(&out)
}

} // verus!
