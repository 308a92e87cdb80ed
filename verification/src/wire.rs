//! The structural wire form of a message segment: a JSON-shaped text
//! `{"type":TAG,"data":{NAME:VALUE,...}}` with string and integer values.
//! Spec functions define the canonical encoding; the executable encoder
//! produces exactly that text, and the parser is proved to recover every
//! canonically encoded message.
use vstd::prelude::*;

verus! {

// ---------------------------------------------------------------------------
// character classes
// ---------------------------------------------------------------------------

pub open spec fn is_ws_char(c: char) -> bool {
    c == ' ' || c == '\n' || c == '\r' || c == '\t'
}

pub open spec fn is_digit_char(c: char) -> bool {
    c == '0' || c == '1' || c == '2' || c == '3' || c == '4' || c == '5' || c == '6' || c == '7'
        || c == '8' || c == '9'
}

/// A character that a well-formed field string may hold: anything except the
/// control characters that the escape table cannot represent.
pub open spec fn char_ok(c: char) -> bool {
    (c as u32) >= 32 || c == '\n' || c == '\r' || c == '\t'
}

pub open spec fn str_wf(s: Seq<char>) -> bool {
    forall|i: int| 0 <= i < s.len() ==> char_ok(#[trigger] s[i])
}

// ---------------------------------------------------------------------------
// string escaping
// ---------------------------------------------------------------------------

pub open spec fn esc_char(c: char) -> Seq<char> {
    if c == '"' {
        seq!['\\', '"']
    } else if c == '\\' {
        seq!['\\', '\\']
    } else if c == '\n' {
        seq!['\\', 'n']
    } else if c == '\r' {
        seq!['\\', 'r']
    } else if c == '\t' {
        seq!['\\', 't']
    } else {
        seq![c]
    }
}

pub open spec fn spec_escape(s: Seq<char>) -> Seq<char>
    decreases s.len(),
{
    if s.len() == 0 {
        Seq::empty()
    } else {
        esc_char(s[0]) + spec_escape(s.skip(1))
    }
}

/// The wire form of a string: quoted and escaped.
pub open spec fn spec_quote(s: Seq<char>) -> Seq<char> {
    seq!['"'] + spec_escape(s) + seq!['"']
}

pub proof fn lemma_escape_concat(a: Seq<char>, b: Seq<char>)
    ensures
        spec_escape(a + b) == spec_escape(a) + spec_escape(b),
    decreases a.len(),
{
    if a.len() == 0 {
        assert(a + b =~= b);
        assert(spec_escape(a) + spec_escape(b) =~= spec_escape(b));
    } else {
        assert((a + b).skip(1) =~= a.skip(1) + b);
        lemma_escape_concat(a.skip(1), b);
        assert(esc_char((a + b)[0]) + (spec_escape(a.skip(1)) + spec_escape(b)) =~= (esc_char(
            a[0],
        ) + spec_escape(a.skip(1))) + spec_escape(b));
    }
}

pub proof fn lemma_escape_push(s: Seq<char>, c: char)
    ensures
        spec_escape(s.push(c)) == spec_escape(s) + esc_char(c),
{
    assert(s.push(c) =~= s + seq![c]);
    lemma_escape_concat(s, seq![c]);
    assert(seq![c].skip(1) =~= Seq::<char>::empty());
    assert(esc_char(c) + spec_escape(seq![c].skip(1)) =~= esc_char(c));
}

/// Splits a known prefix of `v` into its two parts.
pub proof fn lemma_prefix_shift(v: Seq<char>, i: int, a: Seq<char>, b: Seq<char>)
    requires
        0 <= i,
        i + a.len() + b.len() <= v.len(),
        v.subrange(i, i + a.len() + b.len()) == a + b,
    ensures
        v.subrange(i, i + a.len()) == a,
        v.subrange(i + a.len(), i + a.len() + b.len()) == b,
{
    let w = v.subrange(i, i + a.len() + b.len());
    assert forall|k: int| 0 <= k < a.len() implies v.subrange(i, i + a.len())[k] == a[k] by {
        assert(v.subrange(i, i + a.len())[k] == v[i + k]);
        assert(w[k] == v[i + k]);
        assert(w[k] == (a + b)[k]);
    }
    assert(v.subrange(i, i + a.len()) =~= a);
    assert forall|k: int|
        0 <= k < b.len() implies v.subrange(i + a.len(), i + a.len() + b.len())[k] == b[k] by {
        assert(v.subrange(i + a.len(), i + a.len() + b.len())[k] == v[i + a.len() + k]);
        assert(w[a.len() + k] == v[i + a.len() + k]);
        assert(w[a.len() + k] == (a + b)[a.len() + k]);
    }
    assert(v.subrange(i + a.len(), i + a.len() + b.len()) =~= b);
}

// ---------------------------------------------------------------------------
// decimal integers
// ---------------------------------------------------------------------------

pub open spec fn digit_char(d: nat) -> char {
    if d == 0 {
        '0'
    } else if d == 1 {
        '1'
    } else if d == 2 {
        '2'
    } else if d == 3 {
        '3'
    } else if d == 4 {
        '4'
    } else if d == 5 {
        '5'
    } else if d == 6 {
        '6'
    } else if d == 7 {
        '7'
    } else if d == 8 {
        '8'
    } else {
        '9'
    }
}

pub open spec fn digit_val(c: char) -> nat {
    if c == '0' {
        0
    } else if c == '1' {
        1
    } else if c == '2' {
        2
    } else if c == '3' {
        3
    } else if c == '4' {
        4
    } else if c == '5' {
        5
    } else if c == '6' {
        6
    } else if c == '7' {
        7
    } else if c == '8' {
        8
    } else {
        9
    }
}

/// Decimal digit string of a non-negative number, most significant first.
pub open spec fn dec_digits(m: nat) -> Seq<char>
    decreases m,
{
    if m < 10 {
        seq![digit_char(m)]
    } else {
        dec_digits(m / 10).push(digit_char(m % 10))
    }
}

/// The wire form of an integer.
pub open spec fn spec_int(n: int) -> Seq<char> {
    if n < 0 {
        seq!['-'] + dec_digits((-n) as nat)
    } else {
        dec_digits(n as nat)
    }
}

/// Value of a digit string, most significant first.
pub open spec fn dec_val(s: Seq<char>) -> nat
    decreases s.len(),
{
    if s.len() == 0 {
        0
    } else {
        dec_val(s.drop_last()) * 10 + digit_val(s.last())
    }
}

pub open spec fn all_digits(s: Seq<char>) -> bool {
    forall|i: int| 0 <= i < s.len() ==> is_digit_char(#[trigger] s[i])
}

pub proof fn lemma_dec_digits_facts(m: nat)
    ensures
        dec_digits(m).len() >= 1,
        all_digits(dec_digits(m)),
        dec_val(dec_digits(m)) == m,
    decreases m,
{
    if m < 10 {
        assert(is_digit_char(digit_char(m)));
        assert(dec_digits(m).drop_last() =~= Seq::<char>::empty());
        assert(dec_digits(m).last() == digit_char(m));
        assert(digit_val(digit_char(m)) == m);
        assert(dec_val(dec_digits(m)) == dec_val(Seq::<char>::empty()) * 10 + digit_val(
            digit_char(m),
        ));
    } else {
        lemma_dec_digits_facts(m / 10);
        let d = dec_digits(m / 10);
        assert(dec_digits(m) == d.push(digit_char(m % 10)));
        assert(d.push(digit_char(m % 10)).drop_last() =~= d);
        assert(digit_val(digit_char(m % 10)) == m % 10);
        assert(dec_val(dec_digits(m)) == (m / 10) * 10 + m % 10);
        assert(forall|i: int|
            0 <= i < dec_digits(m).len() ==> is_digit_char(#[trigger] dec_digits(m)[i]));
    }
}

/// A digit-string prefix never has a larger value than the whole string.
pub proof fn lemma_dec_val_take(s: Seq<char>, k: int)
    requires
        0 <= k <= s.len(),
    ensures
        dec_val(s.take(k)) <= dec_val(s),
    decreases s.len() - k,
{
    if k == s.len() {
        assert(s.take(k) =~= s);
    } else {
        lemma_dec_val_take(s, k + 1);
        assert(s.take(k + 1).drop_last() =~= s.take(k));
        assert(dec_val(s.take(k + 1)) == dec_val(s.take(k)) * 10 + digit_val(s.take(k + 1).last()));
    }
}

// ---------------------------------------------------------------------------
// field values and field lists
// ---------------------------------------------------------------------------

/// Mathematical model of a wire value.
pub enum SpecVal {
    S(Seq<char>),
    I(int),
}

pub open spec fn val_wf(v: SpecVal) -> bool {
    match v {
        SpecVal::S(s) => str_wf(s),
        SpecVal::I(n) => -0x8000_0000_0000_0000 <= n < 0x8000_0000_0000_0000,
    }
}

pub open spec fn spec_val(v: SpecVal) -> Seq<char> {
    match v {
        SpecVal::S(s) => spec_quote(s),
        SpecVal::I(n) => spec_int(n),
    }
}

pub open spec fn pair_wf(p: (Seq<char>, SpecVal)) -> bool {
    str_wf(p.0) && val_wf(p.1)
}

pub open spec fn spec_pair(p: (Seq<char>, SpecVal)) -> Seq<char> {
    spec_quote(p.0) + seq![':'] + spec_val(p.1)
}

pub open spec fn fields_wf(fs: Seq<(Seq<char>, SpecVal)>) -> bool {
    forall|i: int| 0 <= i < fs.len() ==> pair_wf(#[trigger] fs[i])
}

/// Comma-joined field pairs.
pub open spec fn spec_fields(fs: Seq<(Seq<char>, SpecVal)>) -> Seq<char>
    decreases fs.len(),
{
    if fs.len() == 0 {
        Seq::empty()
    } else if fs.len() == 1 {
        spec_pair(fs[0])
    } else {
        spec_pair(fs[0]) + seq![','] + spec_fields(fs.skip(1))
    }
}

pub proof fn lemma_fields_snoc(fs: Seq<(Seq<char>, SpecVal)>, p: (Seq<char>, SpecVal))
    ensures
        fs.len() == 0 ==> spec_fields(fs.push(p)) == spec_pair(p),
        fs.len() > 0 ==> spec_fields(fs.push(p)) == spec_fields(fs) + seq![','] + spec_pair(p),
    decreases fs.len(),
{
    if fs.len() == 0 {
        assert(fs.push(p)[0] == p);
    } else if fs.len() == 1 {
        assert(fs.push(p).skip(1) =~= seq![p]);
        assert(spec_fields(seq![p]) == spec_pair(p));
        assert(fs.push(p)[0] == fs[0]);
    } else {
        assert(fs.push(p).skip(1) =~= fs.skip(1).push(p));
        lemma_fields_snoc(fs.skip(1), p);
        assert(fs.push(p)[0] == fs[0]);
        assert(spec_pair(fs[0]) + seq![','] + (spec_fields(fs.skip(1)) + seq![','] + spec_pair(p))
            =~= (spec_pair(fs[0]) + seq![','] + spec_fields(fs.skip(1))) + seq![','] + spec_pair(
            p,
        ));
    }
}

/// The whole wire text of one segment.
pub open spec fn spec_message(tag: Seq<char>, fs: Seq<(Seq<char>, SpecVal)>) -> Seq<char> {
    seq!['{'] + spec_quote("type"@) + seq![':'] + spec_quote(tag) + seq![','] + spec_quote("data"@)
        + seq![':', '{'] + spec_fields(fs) + seq!['}', '}']
}

// ---------------------------------------------------------------------------
// executable field representation
// ---------------------------------------------------------------------------

pub enum FieldValue {
    Text(Vec<char>),
    Int(i64),
}

impl View for FieldValue {
    type V = SpecVal;

    open spec fn view(&self) -> SpecVal {
        match self {
            FieldValue::Text(s) => SpecVal::S(s@),
            FieldValue::Int(n) => SpecVal::I(*n as int),
        }
    }
}

pub struct Field {
    pub name: Vec<char>,
    pub value: FieldValue,
}

impl View for Field {
    type V = (Seq<char>, SpecVal);

    open spec fn view(&self) -> (Seq<char>, SpecVal) {
        (self.name@, self.value@)
    }
}

pub open spec fn views_of(fs: Seq<Field>) -> Seq<(Seq<char>, SpecVal)> {
    fs.map_values(|f: Field| f@)
}

// ---------------------------------------------------------------------------
// basic executable helpers
// ---------------------------------------------------------------------------

pub fn str_to_chars(s: &str) -> (r: Vec<char>)
    ensures
        r@ == s@,
{
    let n = s.unicode_len();
    let mut r: Vec<char> = Vec::new();
    let mut i: usize = 0;
    while i < n
        invariant
            i <= n,
            n == s@.len(),
            r@ == s@.take(i as int),
        decreases n - i,
    {
        let c = s.get_char(i);
        r.push(c);
        i = i + 1;
        proof {
            assert(r@ =~= s@.take(i as int));
        }
    }
    proof {
        assert(r@ =~= s@);
    }
    r
}

/// Relies on `String`'s `FromIterator<char>` implementation: collecting an
/// iterator of characters yields the string holding exactly those characters
/// in order.
#[verifier::external_body]
pub fn chars_to_string(v: &Vec<char>) -> (r: String)
    ensures
        r@ == v@,
{
    v.iter().collect()
}

pub fn eq_chars_str(v: &Vec<char>, s: &str) -> (b: bool)
    ensures
        b == (v@ == s@),
{
    let n = s.unicode_len();
    if v.len() != n {
        proof {
            assert(v@ != s@);
        }
        return false;
    }
    let mut i: usize = 0;
    while i < n
        invariant
            i <= n,
            n == s@.len(),
            v@.len() == n,
            forall|k: int| 0 <= k < i ==> v@[k] == s@[k],
        decreases n - i,
    {
        if v[i] != s.get_char(i) {
            proof {
                assert(v@[i as int] != s@[i as int]);
            }
            return false;
        }
        i = i + 1;
    }
    proof {
        assert(v@ =~= s@);
    }
    true
}

// ---------------------------------------------------------------------------
// encoding
// ---------------------------------------------------------------------------

pub fn append_quoted(out: &mut Vec<char>, s: &Vec<char>)
    ensures
        final(out)@ == old(out)@ + spec_quote(s@),
{
    out.push('"');
    let ghost base = out@;
    let mut i: usize = 0;
    while i < s.len()
        invariant
            i <= s@.len(),
            out@ == base + spec_escape(s@.take(i as int)),
        decreases s@.len() - i,
    {
        let c = s[i];
        if c == '"' {
            out.push('\\');
            out.push('"');
        } else if c == '\\' {
            out.push('\\');
            out.push('\\');
        } else if c == '\n' {
            out.push('\\');
            out.push('n');
        } else if c == '\r' {
            out.push('\\');
            out.push('r');
        } else if c == '\t' {
            out.push('\\');
            out.push('t');
        } else {
            out.push(c);
        }
        proof {
            lemma_escape_push(s@.take(i as int), s@[i as int]);
            assert(s@.take(i + 1) =~= s@.take(i as int).push(s@[i as int]));
            assert(out@ =~= base + spec_escape(s@.take(i + 1)));
        }
        i = i + 1;
    }
    proof {
        assert(s@.take(s@.len() as int) =~= s@);
    }
    out.push('"');
    proof {
        assert(out@ =~= old(out)@ + spec_quote(s@));
    }
}

fn digit_of(d: u64) -> (c: char)
    requires
        d < 10,
    ensures
        c == digit_char(d as nat),
{
    if d == 0 {
        '0'
    } else if d == 1 {
        '1'
    } else if d == 2 {
        '2'
    } else if d == 3 {
        '3'
    } else if d == 4 {
        '4'
    } else if d == 5 {
        '5'
    } else if d == 6 {
        '6'
    } else if d == 7 {
        '7'
    } else if d == 8 {
        '8'
    } else {
        '9'
    }
}

pub fn append_digits(out: &mut Vec<char>, m: u64)
    ensures
        final(out)@ == old(out)@ + dec_digits(m as nat),
    decreases m,
{
    if m < 10 {
        out.push(digit_of(m));
        proof {
            assert(out@ =~= old(out)@ + dec_digits(m as nat));
        }
    } else {
        append_digits(out, m / 10);
        out.push(digit_of(m % 10));
        proof {
            assert(out@ =~= old(out)@ + dec_digits(m as nat));
        }
    }
}

pub fn append_int(out: &mut Vec<char>, n: i64)
    ensures
        final(out)@ == old(out)@ + spec_int(n as int),
{
    if n < 0 {
        out.push('-');
        let m: u64 = ((-(n + 1)) as u64) + 1;
        proof {
            assert(m as nat == (-(n as int)) as nat);
        }
        append_digits(out, m);
        proof {
            assert(out@ =~= old(out)@ + spec_int(n as int));
        }
    } else {
        append_digits(out, n as u64);
        proof {
            assert(n as u64 as nat == n as int as nat);
        }
    }
}

pub fn append_val(out: &mut Vec<char>, v: &FieldValue)
    ensures
        final(out)@ == old(out)@ + spec_val(v@),
{
    match v {
        FieldValue::Text(s) => append_quoted(out, s),
        FieldValue::Int(n) => append_int(out, *n),
    }
}

pub fn append_pair(out: &mut Vec<char>, f: &Field)
    ensures
        final(out)@ == old(out)@ + spec_pair(f@),
{
    append_quoted(out, &f.name);
    out.push(':');
    append_val(out, &f.value);
    proof {
        assert(out@ =~= old(out)@ + spec_pair(f@));
    }
}

pub fn append_fields(out: &mut Vec<char>, fs: &Vec<Field>)
    ensures
        final(out)@ == old(out)@ + spec_fields(views_of(fs@)),
{
    let mut i: usize = 0;
    while i < fs.len()
        invariant
            i <= fs@.len(),
            out@ == old(out)@ + spec_fields(views_of(fs@.take(i as int))),
        decreases fs@.len() - i,
    {
        if i > 0 {
            out.push(',');
        }
        append_pair(out, &fs[i]);
        proof {
            let pre = views_of(fs@.take(i as int));
            lemma_fields_snoc(pre, fs@[i as int]@);
            assert(views_of(fs@.take(i + 1)) =~= pre.push(fs@[i as int]@));
            if i > 0 {
                assert(pre.len() > 0);
                assert(out@ =~= old(out)@ + (spec_fields(pre) + seq![','] + spec_pair(
                    fs@[i as int]@,
                )));
            } else {
                assert(pre.len() == 0);
                assert(spec_fields(pre) =~= Seq::<char>::empty());
                assert(out@ =~= old(out)@ + spec_pair(fs@[i as int]@));
            }
        }
        i = i + 1;
    }
    proof {
        assert(fs@.take(fs@.len() as int) =~= fs@);
    }
}

/// Builds the full wire text for a tag and a field list.
pub fn encode_wire(tag: &str, fields: &Vec<Field>) -> (r: String)
    ensures
        r@ == spec_message(tag@, views_of(fields@)),
{
    let mut out: Vec<char> = Vec::new();
    out.push('{');
    let key_type = str_to_chars("type");
    append_quoted(&mut out, &key_type);
    out.push(':');
    let tag_chars_v = str_to_chars(tag);
    append_quoted(&mut out, &tag_chars_v);
    out.push(',');
    let key_data = str_to_chars("data");
    append_quoted(&mut out, &key_data);
    out.push(':');
    out.push('{');
    append_fields(&mut out, fields);
    out.push('}');
    out.push('}');
    proof {
        assert(out@ =~= spec_message(tag@, views_of(fields@)));
    }
    chars_to_string(&out)
}

// ---------------------------------------------------------------------------
// parsing
// ---------------------------------------------------------------------------

pub open spec fn quote_prefix_at(v: Seq<char>, i: int, s: Seq<char>) -> bool {
    0 <= i && i + spec_quote(s).len() <= v.len() && v.subrange(i, i + spec_quote(s).len())
        == spec_quote(s)
}

pub open spec fn content_prefix_at(v: Seq<char>, j: int, s: Seq<char>) -> bool {
    0 <= j && j + spec_escape(s).len() + 1 <= v.len() && v.subrange(
        j,
        j + spec_escape(s).len() + 1,
    ) == spec_escape(s) + seq!['"']
}

pub open spec fn int_prefix_at(v: Seq<char>, i: int, n: int) -> bool {
    0 <= i && i + spec_int(n).len() <= v.len() && v.subrange(i, i + spec_int(n).len()) == spec_int(
        n,
    ) && (i + spec_int(n).len() == v.len() || !is_digit_char(v[i + spec_int(n).len()]))
}

pub open spec fn val_prefix_at(v: Seq<char>, i: int, val: SpecVal) -> bool {
    match val {
        SpecVal::S(s) => quote_prefix_at(v, i, s),
        SpecVal::I(n) => int_prefix_at(v, i, n),
    }
}

pub open spec fn fields_prefix_at(v: Seq<char>, i: int, fs: Seq<(Seq<char>, SpecVal)>) -> bool {
    0 <= i && i + spec_fields(fs).len() + 1 <= v.len() && v.subrange(
        i,
        i + spec_fields(fs).len() + 1,
    ) == spec_fields(fs) + seq!['}']
}

fn ws_char(c: char) -> (b: bool)
    ensures
        b == is_ws_char(c),
{
    c == ' ' || c == '\n' || c == '\r' || c == '\t'
}

fn is_digit_exec(c: char) -> (b: bool)
    ensures
        b == is_digit_char(c),
{
    c == '0' || c == '1' || c == '2' || c == '3' || c == '4' || c == '5' || c == '6' || c == '7'
        || c == '8' || c == '9'
}

fn digit_value_exec(c: char) -> (r: u64)
    requires
        is_digit_char(c),
    ensures
        r < 10 && r as nat == digit_val(c),
{
    if c == '0' {
        0
    } else if c == '1' {
        1
    } else if c == '2' {
        2
    } else if c == '3' {
        3
    } else if c == '4' {
        4
    } else if c == '5' {
        5
    } else if c == '6' {
        6
    } else if c == '7' {
        7
    } else if c == '8' {
        8
    } else {
        9
    }
}

pub fn skip_ws(v: &Vec<char>, i: usize) -> (j: usize)
    requires
        i <= v@.len(),
    ensures
        i <= j <= v@.len(),
        forall|k: int| i <= k < j ==> is_ws_char(#[trigger] v@[k]),
        j < v@.len() ==> !is_ws_char(v@[j as int]),
{
    let mut j = i;
    while j < v.len() && ws_char(v[j])
        invariant
            i <= j <= v@.len(),
            forall|k: int| i <= k < j ==> is_ws_char(#[trigger] v@[k]),
        decreases v@.len() - j,
    {
        j = j + 1;
    }
    j
}

// ---------------------------------------------------------------------------
// whitespace-insensitive equality to a canonical text
// ---------------------------------------------------------------------------

/// `t` is `c` with whitespace characters inserted around its characters.
pub open spec fn ws_interleave(t: Seq<char>, c: Seq<char>) -> bool
    decreases t.len(),
{
    if t.len() == 0 {
        c.len() == 0
    } else {
        (is_ws_char(t[0]) && ws_interleave(t.skip(1), c)) || (c.len() > 0 && t[0] == c[0]
            && ws_interleave(t.skip(1), c.skip(1)))
    }
}

pub proof fn lemma_wsint_refl(c: Seq<char>)
    ensures
        ws_interleave(c, c),
    decreases c.len(),
{
    if c.len() > 0 {
        lemma_wsint_refl(c.skip(1));
    }
}

pub proof fn lemma_wsint_ws(t: Seq<char>)
    requires
        forall|k: int| 0 <= k < t.len() ==> is_ws_char(#[trigger] t[k]),
    ensures
        ws_interleave(t, Seq::<char>::empty()),
    decreases t.len(),
{
    if t.len() > 0 {
        assert(forall|k: int| 0 <= k < t.skip(1).len() ==> is_ws_char(#[trigger] t.skip(1)[k]));
        lemma_wsint_ws(t.skip(1));
    }
}

pub proof fn lemma_wsint_concat(t1: Seq<char>, c1: Seq<char>, t2: Seq<char>, c2: Seq<char>)
    requires
        ws_interleave(t1, c1),
        ws_interleave(t2, c2),
    ensures
        ws_interleave(t1 + t2, c1 + c2),
    decreases t1.len(),
{
    if t1.len() == 0 {
        assert(c1.len() == 0);
        assert(t1 + t2 =~= t2);
        assert(c1 + c2 =~= c2);
    } else {
        assert((t1 + t2).skip(1) =~= t1.skip(1) + t2);
        assert((t1 + t2)[0] == t1[0]);
        if is_ws_char(t1[0]) && ws_interleave(t1.skip(1), c1) {
            lemma_wsint_concat(t1.skip(1), c1, t2, c2);
        } else {
            assert(c1.len() > 0 && t1[0] == c1[0] && ws_interleave(t1.skip(1), c1.skip(1)));
            lemma_wsint_concat(t1.skip(1), c1.skip(1), t2, c2);
            assert((c1 + c2)[0] == c1[0]);
            assert((c1 + c2).skip(1) =~= c1.skip(1) + c2);
        }
    }
}

/// Scans the body of a quoted string up to and including the closing quote,
/// appending the unescaped content to `c`. On success the consumed text is
/// exactly the escaped spelling of the appended content plus the quote.
#[verifier::rlimit(100)]
fn scan_string(v: &Vec<char>, j: usize, c: &mut Vec<char>) -> (r: Option<usize>)
    requires
        j <= v@.len(),
    ensures
        r matches Some(n) ==> j < n <= v@.len(),
        r matches Some(n) ==> (str_wf(old(c)@) ==> str_wf(final(c)@)),
        r matches Some(n) ==> final(c)@.len() >= old(c)@.len() && final(c)@.take(
            old(c)@.len() as int,
        ) == old(c)@,
        r matches Some(n) ==> v@.subrange(j as int, n as int) == spec_escape(
            final(c)@.skip(old(c)@.len() as int),
        ) + seq!['"'],
        forall|s: Seq<char>|
            str_wf(s) && #[trigger] content_prefix_at(v@, j as int, s) ==> (r matches Some(n)
                && n == j + spec_escape(s).len() + 1 && final(c)@ == old(c)@ + s),
    decreases v@.len() - j,
{
    if j >= v.len() {
        proof {
            assert forall|s: Seq<char>|
                str_wf(s) && #[trigger] content_prefix_at(v@, j as int, s) implies false by {
                assert(j as int + spec_escape(s).len() + 1 > v@.len());
            }
        }
        return None;
    }
    let ch = v[j];
    if ch == '"' {
        proof {
            assert(c@.take(old(c)@.len() as int) =~= old(c)@);
            assert(c@.skip(old(c)@.len() as int) =~= Seq::<char>::empty());
            assert(v@.subrange(j as int, j + 1) =~= spec_escape(Seq::<char>::empty())
                + seq!['"']);
            assert forall|s: Seq<char>|
                str_wf(s) && #[trigger] content_prefix_at(v@, j as int, s) implies s.len() == 0 by {
                if s.len() > 0 {
                    let t = spec_escape(s) + seq!['"'];
                    assert(v@[j as int] == v@.subrange(
                        j as int,
                        j + spec_escape(s).len() + 1,
                    )[0]);
                    assert(t[0] == esc_char(s[0])[0]);
                    assert(false);
                }
            }
            assert forall|s: Seq<char>|
                str_wf(s) && #[trigger] content_prefix_at(v@, j as int, s) implies j + 1 == j
                + spec_escape(s).len() + 1 && c@ == old(c)@ + s by {
                assert(s.len() == 0);
                assert(spec_escape(s).len() == 0);
                assert(c@ =~= old(c)@ + s);
            }
        }
        return Some(j + 1);
    }
    if ch == '\\' {
        if j + 1 >= v.len() {
            proof {
                assert forall|s: Seq<char>|
                    str_wf(s) && #[trigger] content_prefix_at(v@, j as int, s) implies false by {
                    assert(s.len() > 0) by {
                        if s.len() == 0 {
                            assert(v@[j as int] == (spec_escape(s) + seq!['"'])[0]);
                        }
                    }
                    assert(v@[j as int] == (spec_escape(s) + seq!['"'])[0]);
                    assert((spec_escape(s) + seq!['"'])[0] == esc_char(s[0])[0]);
                    // the head escape must be a two-character escape
                    assert(esc_char(s[0]).len() == 2);
                    assert(j as int + spec_escape(s).len() + 1 > j + 1);
                }
            }
            return None;
        }
        let e = v[j + 1];
        let dec: char;
        if e == '"' {
            dec = '"';
        } else if e == '\\' {
            dec = '\\';
        } else if e == 'n' {
            dec = '\n';
        } else if e == 'r' {
            dec = '\r';
        } else if e == 't' {
            dec = '\t';
        } else {
            proof {
                assert forall|s: Seq<char>|
                    str_wf(s) && #[trigger] content_prefix_at(v@, j as int, s) implies false by {
                    assert(s.len() > 0) by {
                        if s.len() == 0 {
                            assert(v@[j as int] == (spec_escape(s) + seq!['"'])[0]);
                        }
                    }
                    assert(v@[j as int] == (spec_escape(s) + seq!['"'])[0]);
                    assert((spec_escape(s) + seq!['"'])[0] == esc_char(s[0])[0]);
                    assert(esc_char(s[0]).len() == 2);
                    assert(v@[j + 1] == (spec_escape(s) + seq!['"'])[1]);
                    assert((spec_escape(s) + seq!['"'])[1] == esc_char(s[0])[1]);
                }
            }
            return None;
        }
        let ghost c_mid = c@;
        c.push(dec);
        let res = scan_string(v, j + 2, c);
        proof {
            assert(str_wf(c_mid) ==> str_wf(c_mid.push(dec))) by {
                if str_wf(c_mid) {
                    assert(forall|k: int|
                        0 <= k < c_mid.push(dec).len() ==> char_ok(#[trigger] c_mid.push(dec)[k]));
                }
            }
            match res {
                Option::Some(n) => {
                    // constructive soundness: the consumed text is the escape
                    // of the appended content
                    assert(c@.take(old(c)@.len() as int) =~= old(c)@);
                    let fresh = c@.skip(old(c)@.len() as int);
                    let rest = c@.skip(c_mid.len() as int + 1);
                    assert(c@.take(c_mid.len() as int + 1) == c_mid.push(dec));
                    assert(c@[c_mid.len() as int] == c@.take(c_mid.len() as int + 1)[
                        c_mid.len() as int
                    ]);
                    assert(c@[old(c)@.len() as int] == dec);
                    assert(fresh =~= seq![dec] + rest);
                    lemma_escape_concat(seq![dec], rest);
                    assert(seq![dec].skip(1) =~= Seq::<char>::empty());
                    assert(esc_char(dec) + spec_escape(seq![dec].skip(1)) =~= esc_char(dec));
                    assert(esc_char(dec) =~= seq![ch, e]);
                    assert(v@.subrange(j as int, n as int) =~= seq![ch, e] + v@.subrange(
                        j + 2,
                        n as int,
                    ));
                    assert(v@.subrange(j as int, n as int) =~= (esc_char(dec) + spec_escape(rest))
                        + seq!['"']);
                    assert(v@.subrange(j as int, n as int) =~= spec_escape(fresh) + seq!['"']);
                },
                Option::None => {},
            }
            assert forall|s: Seq<char>|
                str_wf(s) && #[trigger] content_prefix_at(v@, j as int, s) implies (res
                matches Some(n) && n == j + spec_escape(s).len() + 1 && c@ == c_mid.push(dec)
                + s.skip(1) && s[0] == dec && spec_escape(s).len() == 2 + spec_escape(
                s.skip(1),
            ).len()) by {
                assert(s.len() > 0) by {
                    if s.len() == 0 {
                        assert(v@[j as int] == (spec_escape(s) + seq!['"'])[0]);
                    }
                }
                let t = spec_escape(s) + seq!['"'];
                assert(v@[j as int] == t[0]);
                assert(v@[j + 1] == t[1]);
                assert(t[0] == esc_char(s[0])[0]);
                assert(esc_char(s[0]).len() == 2);
                assert(t[1] == esc_char(s[0])[1]);
                assert(s[0] == dec);
                assert(str_wf(s.skip(1))) by {
                    assert(forall|k: int|
                        0 <= k < s.skip(1).len() ==> char_ok(#[trigger] s.skip(1)[k]));
                }
                assert(spec_escape(s) == esc_char(s[0]) + spec_escape(s.skip(1)));
                assert(content_prefix_at(v@, j + 2, s.skip(1))) by {
                    assert(t =~= esc_char(s[0]) + (spec_escape(s.skip(1)) + seq!['"']));
                    lemma_prefix_shift(
                        v@,
                        j as int,
                        esc_char(s[0]),
                        spec_escape(s.skip(1)) + seq!['"'],
                    );
                }
            }
            assert forall|s: Seq<char>|
                str_wf(s) && #[trigger] content_prefix_at(v@, j as int, s) implies (res
                matches Some(n) && n == j + spec_escape(s).len() + 1 && c@ == old(c)@ + s) by {
                assert(c_mid.push(dec) + s.skip(1) =~= old(c)@ + s);
            }
        }
        return res;
    }
    let cu = ch as u32;
    if cu < 32 {
        proof {
            assert forall|s: Seq<char>|
                str_wf(s) && #[trigger] content_prefix_at(v@, j as int, s) implies false by {
                assert(s.len() > 0) by {
                    if s.len() == 0 {
                        assert(v@[j as int] == (spec_escape(s) + seq!['"'])[0]);
                    }
                }
                assert(v@[j as int] == (spec_escape(s) + seq!['"'])[0]);
                assert((spec_escape(s) + seq!['"'])[0] == esc_char(s[0])[0]);
                assert(char_ok(s[0]));
            }
        }
        return None;
    }
    let ghost c_mid = c@;
    c.push(ch);
    let res = scan_string(v, j + 1, c);
    proof {
        assert(str_wf(c_mid) ==> str_wf(c_mid.push(ch))) by {
            if str_wf(c_mid) {
                assert(forall|k: int|
                    0 <= k < c_mid.push(ch).len() ==> char_ok(#[trigger] c_mid.push(ch)[k]));
            }
        }
        match res {
            Option::Some(n) => {
                assert(c@.take(old(c)@.len() as int) =~= old(c)@);
                let fresh = c@.skip(old(c)@.len() as int);
                let rest = c@.skip(c_mid.len() as int + 1);
                assert(c@.take(c_mid.len() as int + 1) == c_mid.push(ch));
                assert(c@[c_mid.len() as int] == c@.take(c_mid.len() as int + 1)[
                    c_mid.len() as int
                ]);
                assert(c@[old(c)@.len() as int] == ch);
                assert(fresh =~= seq![ch] + rest);
                lemma_escape_concat(seq![ch], rest);
                assert(seq![ch].skip(1) =~= Seq::<char>::empty());
                assert(esc_char(ch) + spec_escape(seq![ch].skip(1)) =~= esc_char(ch));
                assert(esc_char(ch) =~= seq![ch]);
                assert(v@.subrange(j as int, n as int) =~= seq![ch] + v@.subrange(
                    j + 1,
                    n as int,
                ));
                assert(v@.subrange(j as int, n as int) =~= (esc_char(ch) + spec_escape(rest))
                    + seq!['"']);
                assert(v@.subrange(j as int, n as int) =~= spec_escape(fresh) + seq!['"']);
            },
            Option::None => {},
        }
        assert forall|s: Seq<char>|
            str_wf(s) && #[trigger] content_prefix_at(v@, j as int, s) implies (res matches Some(n)
            && n == j + spec_escape(s).len() + 1 && c@ == old(c)@ + s) by {
            assert(s.len() > 0) by {
                if s.len() == 0 {
                    assert(v@[j as int] == (spec_escape(s) + seq!['"'])[0]);
                }
            }
            let t = spec_escape(s) + seq!['"'];
            assert(v@[j as int] == t[0]);
            assert(t[0] == esc_char(s[0])[0]);
            // a two-character escape starts with a backslash, which was
            // handled in the branch above, so the head is verbatim
            assert(esc_char(s[0]) =~= seq![s[0]]);
            assert(s[0] == ch);
            assert(str_wf(s.skip(1))) by {
                assert(forall|k: int| 0 <= k < s.skip(1).len() ==> char_ok(#[trigger] s.skip(1)[k]));
            }
            assert(spec_escape(s) == esc_char(s[0]) + spec_escape(s.skip(1)));
            assert(content_prefix_at(v@, j + 1, s.skip(1))) by {
                assert(t =~= esc_char(s[0]) + (spec_escape(s.skip(1)) + seq!['"']));
                lemma_prefix_shift(
                    v@,
                    j as int,
                    esc_char(s[0]),
                    spec_escape(s.skip(1)) + seq!['"'],
                );
            }
            assert(c_mid.push(ch) + s.skip(1) =~= old(c)@ + s);
        }
    }
    res
}

/// Parses a quoted string starting at `i`. On success the consumed text is
/// exactly the canonical quoted spelling of the returned content.
pub fn parse_string(v: &Vec<char>, i: usize) -> (r: Option<(Vec<char>, usize)>)
    requires
        i <= v@.len(),
    ensures
        r matches Some(p) ==> i + 2 <= p.1 <= v@.len() && str_wf(p.0@),
        r matches Some(p) ==> v@.subrange(i as int, p.1 as int) == spec_quote(p.0@),
        forall|s: Seq<char>|
            str_wf(s) && #[trigger] quote_prefix_at(v@, i as int, s) ==> (r matches Some(p) && p.0@
                == s && p.1 == i + spec_quote(s).len()),
{
    if i >= v.len() || v[i] != '"' {
        proof {
            assert forall|s: Seq<char>|
                str_wf(s) && #[trigger] quote_prefix_at(v@, i as int, s) implies false by {
                assert(v@[i as int] == v@.subrange(i as int, i + spec_quote(s).len())[0]);
                assert(spec_quote(s)[0] == '"');
            }
        }
        return None;
    }
    let mut c: Vec<char> = Vec::new();
    proof {
        assert forall|s: Seq<char>|
            str_wf(s) && #[trigger] quote_prefix_at(v@, i as int, s) implies content_prefix_at(
            v@,
            i + 1,
            s,
        ) by {
            assert(spec_quote(s) =~= seq!['"'] + (spec_escape(s) + seq!['"']));
            lemma_prefix_shift(v@, i as int, seq!['"'], spec_escape(s) + seq!['"']);
        }
    }
    match scan_string(v, i + 1, &mut c) {
        None => {
            proof {
                assert forall|s: Seq<char>|
                    str_wf(s) && #[trigger] quote_prefix_at(v@, i as int, s) implies false by {
                    assert(content_prefix_at(v@, i + 1, s));
                }
            }
            None
        },
        Some(n) => {
            proof {
                assert(c@.skip(0) =~= c@);
                assert(v@.subrange(i as int, n as int) =~= seq!['"'] + v@.subrange(
                    i + 1,
                    n as int,
                ));
                assert(v@.subrange(i as int, n as int) =~= spec_quote(c@));
                assert forall|s: Seq<char>|
                    str_wf(s) && #[trigger] quote_prefix_at(v@, i as int, s) implies (c@ == s && n
                    == i + spec_quote(s).len()) by {
                    assert(content_prefix_at(v@, i + 1, s));
                    assert(c@ =~= Seq::<char>::empty() + s);
                }
            }
            Some((c, n))
        },
    }
}

pub proof fn lemma_digit_char_val(c: char)
    requires
        is_digit_char(c),
    ensures
        digit_char(digit_val(c)) == c,
{
}

pub proof fn lemma_dec_digits_lead(m: nat)
    requires
        m >= 1,
    ensures
        dec_digits(m)[0] != '0',
        dec_digits(m).len() > 1 ==> m >= 10,
    decreases m,
{
    if m >= 10 {
        lemma_dec_digits_lead(m / 10);
        lemma_dec_digits_facts(m / 10);
        assert(dec_digits(m)[0] == dec_digits(m / 10)[0]);
    }
}

/// A digit string with no leading zero is the decimal spelling of its value.
pub proof fn lemma_dec_digits_of_val(s: Seq<char>)
    requires
        all_digits(s),
        s.len() >= 1,
        s.len() > 1 ==> s[0] != '0',
    ensures
        dec_digits(dec_val(s)) == s,
    decreases s.len(),
{
    if s.len() == 1 {
        lemma_digit_char_val(s[0]);
        assert(s.drop_last() =~= Seq::<char>::empty());
        assert(s.last() == s[0]);
        assert(dec_val(Seq::<char>::empty()) == 0);
        assert(dec_val(s) == digit_val(s[0]));
        assert(dec_digits(dec_val(s)) =~= s);
    } else {
        let p = s.drop_last();
        assert(all_digits(p)) by {
            assert(forall|k: int| 0 <= k < p.len() ==> is_digit_char(#[trigger] p[k]));
        }
        assert(p[0] == s[0]);
        lemma_dec_digits_of_val(p);
        lemma_dec_val_take(p, 1);
        assert(p.take(1).drop_last() =~= Seq::<char>::empty());
        assert(p.take(1).last() == p[0]);
        assert(dec_val(Seq::<char>::empty()) == 0);
        assert(dec_val(p.take(1)) == digit_val(p[0]));
        assert(digit_val(p[0]) >= 1);
        assert(dec_val(p) >= 1);
        lemma_digit_char_val(s.last());
        assert(dec_val(s) == dec_val(p) * 10 + digit_val(s.last()));
        assert(dec_val(s) / 10 == dec_val(p) && dec_val(s) % 10 == digit_val(s.last()));
        assert(dec_val(s) >= 10);
        assert(dec_digits(dec_val(s)) == dec_digits(dec_val(p)).push(
            digit_char(digit_val(s.last())),
        ));
        assert(dec_digits(dec_val(s)) =~= s);
    }
}

/// Parses a decimal integer starting at `i`, in its canonical spelling: an
/// optional minus sign, no leading zero, no negative zero. On success the
/// consumed text is exactly the canonical spelling of the returned value.
#[verifier::rlimit(100)]
pub fn parse_int(v: &Vec<char>, i: usize) -> (r: Option<(i64, usize)>)
    requires
        i <= v@.len(),
    ensures
        r matches Some(p) ==> i < p.1 <= v@.len() && v@.subrange(i as int, p.1 as int) == spec_int(
            p.0 as int,
        ) && (p.1 == v@.len() || !is_digit_char(v@[p.1 as int])),
        forall|n: int|
            -0x8000_0000_0000_0000 <= n < 0x8000_0000_0000_0000 && #[trigger] int_prefix_at(
                v@,
                i as int,
                n,
            ) ==> (r matches Some(p) && p.0 as int == n && p.1 == i + spec_int(n).len()),
{
    let ghost iv = v@;
    proof {
        assert forall|n: int|
            -0x8000_0000_0000_0000 <= n < 0x8000_0000_0000_0000 && #[trigger] int_prefix_at(
                iv,
                i as int,
                n,
            ) implies (spec_int(n).len() >= 1 && (n < 0 ==> iv[i as int] == '-' && 1 + i
            + dec_digits((-n) as nat).len() <= iv.len()) && (n >= 0 ==> is_digit_char(
            iv[i as int],
        ))) by {
            if n < 0 {
                lemma_dec_digits_facts((-n) as nat);
                assert(iv[i as int] == spec_int(n)[0]);
            } else {
                lemma_dec_digits_facts(n as nat);
                assert(iv[i as int] == spec_int(n)[0]);
                assert(spec_int(n)[0] == dec_digits(n as nat)[0]);
            }
        }
    }
    let mut j = i;
    let mut neg = false;
    if j < v.len() && v[j] == '-' {
        neg = true;
        j = j + 1;
    }
    let j0 = j;
    if j >= v.len() || !is_digit_exec(v[j]) {
        proof {
            assert forall|n: int|
                -0x8000_0000_0000_0000 <= n < 0x8000_0000_0000_0000 && #[trigger] int_prefix_at(
                    iv,
                    i as int,
                    n,
                ) implies false by {
                let m: nat = if n < 0 {
                    (-n) as nat
                } else {
                    n as nat
                };
                lemma_dec_digits_facts(m);
                assert(iv[j0 as int] == dec_digits(m)[0]) by {
                    if n < 0 {
                        assert(iv[j0 as int] == spec_int(n)[1]);
                    } else {
                        assert(iv[j0 as int] == spec_int(n)[0]);
                    }
                }
            }
        }
        return None;
    }
    let mut acc: u64 = 0;
    while j < v.len() && is_digit_exec(v[j])
        invariant
            i as int <= j0 as int <= j as int <= v@.len(),
            v@ == iv,
            j0 as int == i + if neg {
                1int
            } else {
                0int
            },
            neg ==> i < v@.len() && v@[i as int] == '-',
            acc <= 0x8000_0000_0000_0000u64,
            acc as nat == dec_val(v@.subrange(j0 as int, j as int)),
            all_digits(v@.subrange(j0 as int, j as int)),
            j == j0 ==> j < v@.len() && is_digit_char(v@[j as int]),
            forall|n: int|
                -0x8000_0000_0000_0000 <= n < 0x8000_0000_0000_0000 && #[trigger] int_prefix_at(
                    iv,
                    i as int,
                    n,
                ) ==> (neg <==> n < 0),
        decreases v@.len() - j,
    {
        let d = digit_value_exec(v[j]);
        let ghost consumed = v@.subrange(j0 as int, j as int);
        if acc > 922337203685477580u64 || (acc == 922337203685477580u64 && d > 8) {
            proof {
                assert forall|n: int|
                    -0x8000_0000_0000_0000 <= n < 0x8000_0000_0000_0000 && #[trigger] int_prefix_at(
                        iv,
                        i as int,
                        n,
                    ) implies false by {
                    let m: nat = if n < 0 {
                        (-n) as nat
                    } else {
                        n as nat
                    };
                    lemma_dec_digits_facts(m);
                    let dd = dec_digits(m);
                    // the digit run of the encoding sits at j0
                    assert(iv.subrange(j0 as int, j0 + dd.len()) =~= dd) by {
                        if n < 0 {
                            assert(spec_int(n) =~= seq!['-'] + dd);
                            lemma_prefix_shift(iv, i as int, seq!['-'], dd);
                        } else {
                            assert(spec_int(n) =~= dd);
                        }
                    }
                    // we are strictly inside it, else v[j] would not be a digit
                    assert(j as int - j0 < dd.len()) by {
                        if j as int - j0 >= dd.len() {
                            if j as int - j0 == dd.len() {
                                assert(!is_digit_char(iv[j as int]));
                            } else {
                                assert(is_digit_char(consumed[dd.len() as int]));
                                assert(consumed[dd.len() as int] == iv[j0 + dd.len()]);
                                assert(!is_digit_char(iv[j0 + dd.len()]));
                            }
                        }
                    }
                    assert(consumed =~= dd.take(j as int - j0));
                    lemma_dec_val_take(dd, j as int - j0 + 1);
                    assert(dd.take(j as int - j0 + 1).drop_last() =~= dd.take(j as int - j0));
                    assert(dd.take(j as int - j0 + 1).last() == dd[j as int - j0]);
                    assert(dd[j as int - j0] == iv[j as int]);
                    assert(dec_val(dd.take(j as int - j0 + 1)) == acc as nat * 10 + digit_val(
                        iv[j as int],
                    ));
                    assert(acc as nat * 10 + d as nat <= m);
                }
            }
            return None;
        }
        acc = acc * 10 + d;
        proof {
            assert(v@.subrange(j0 as int, j as int + 1).drop_last() =~= consumed);
            assert(v@.subrange(j0 as int, j as int + 1).last() == v@[j as int]);
            assert(all_digits(v@.subrange(j0 as int, j as int + 1))) by {
                assert(forall|k: int|
                    0 <= k < j as int + 1 - j0 ==> is_digit_char(
                        #[trigger] v@.subrange(j0 as int, j as int + 1)[k],
                    ));
            }
        }
        j = j + 1;
    }
    // under any canonical hypothesis the loop stopped exactly at the end of
    // the digit run
    proof {
        assert forall|n: int|
            -0x8000_0000_0000_0000 <= n < 0x8000_0000_0000_0000 && #[trigger] int_prefix_at(
                iv,
                i as int,
                n,
            ) implies (acc as nat == (if n < 0 {
            (-n) as nat
        } else {
            n as nat
        }) && j as int == i + spec_int(n).len()) by {
            let m: nat = if n < 0 {
                (-n) as nat
            } else {
                n as nat
            };
            lemma_dec_digits_facts(m);
            let dd = dec_digits(m);
            assert(iv.subrange(j0 as int, j0 + dd.len()) =~= dd) by {
                if n < 0 {
                    assert(spec_int(n) =~= seq!['-'] + dd);
                    lemma_prefix_shift(iv, i as int, seq!['-'], dd);
                } else {
                    assert(spec_int(n) =~= dd);
                }
            }
            let consumed = v@.subrange(j0 as int, j as int);
            assert(j as int - j0 >= dd.len()) by {
                if j as int - j0 < dd.len() {
                    assert(is_digit_char(dd[j as int - j0]));
                    assert(dd[j as int - j0] == iv[j as int]);
                }
            }
            assert(j as int - j0 <= dd.len()) by {
                if j as int - j0 > dd.len() {
                    assert(is_digit_char(consumed[dd.len() as int]));
                    assert(consumed[dd.len() as int] == iv[j0 + dd.len()]);
                    assert(j0 + dd.len() == i + spec_int(n).len());
                    assert(!is_digit_char(iv[i + spec_int(n).len()]));
                }
            }
            assert(consumed =~= dd);
        }
    }
    // reject spellings that are not canonical: a leading zero, or a
    // negative zero
    if j - j0 > 1 && v[j0] == '0' {
        proof {
            assert forall|n: int|
                -0x8000_0000_0000_0000 <= n < 0x8000_0000_0000_0000 && #[trigger] int_prefix_at(
                    iv,
                    i as int,
                    n,
                ) implies false by {
                let m: nat = if n < 0 {
                    (-n) as nat
                } else {
                    n as nat
                };
                lemma_dec_digits_facts(m);
                let dd = dec_digits(m);
                assert(iv.subrange(j0 as int, j0 + dd.len()) =~= dd) by {
                    if n < 0 {
                        assert(spec_int(n) =~= seq!['-'] + dd);
                        lemma_prefix_shift(iv, i as int, seq!['-'], dd);
                    } else {
                        assert(spec_int(n) =~= dd);
                    }
                }
                assert(dd.len() == j as int - j0);
                assert(dd =~= v@.subrange(j0 as int, j as int));
                assert(m >= 1) by {
                    if m == 0 {
                        assert(dd =~= seq![digit_char(0)]);
                    }
                }
                lemma_dec_digits_lead(m);
                assert(dd[0] == v@[j0 as int]);
            }
        }
        return None;
    }
    if neg && acc == 0 {
        proof {
            assert forall|n: int|
                -0x8000_0000_0000_0000 <= n < 0x8000_0000_0000_0000 && #[trigger] int_prefix_at(
                    iv,
                    i as int,
                    n,
                ) implies false by {
                assert(n < 0);
                assert(acc as nat == (-n) as nat);
            }
        }
        return None;
    }
    // the consumed digits are the canonical spelling of the accumulated value
    proof {
        let digits = v@.subrange(j0 as int, j as int);
        assert(digits.len() >= 1);
        lemma_dec_digits_of_val(digits);
        assert(dec_digits(acc as nat) == digits);
        if neg {
            assert(v@.subrange(i as int, j as int) =~= seq!['-'] + digits);
        }
    }
    if neg {
        if acc == 9223372036854775808u64 {
            proof {
                assert(spec_int(i64::MIN as int) == seq!['-'] + dec_digits(acc as nat));
            }
            return Some((i64::MIN, j));
        }
        let r = -(acc as i64);
        proof {
            assert(spec_int(r as int) == seq!['-'] + dec_digits(acc as nat));
        }
        return Some((r, j));
    }
    if acc > 9223372036854775807u64 {
        proof {
            assert forall|n: int|
                -0x8000_0000_0000_0000 <= n < 0x8000_0000_0000_0000 && #[trigger] int_prefix_at(
                    iv,
                    i as int,
                    n,
                ) implies false by {
                assert(n >= 0 ==> acc as nat == n as nat);
            }
        }
        return None;
    }
    Some((acc as i64, j))
}

/// Parses one wire value (string or integer) starting at `i`.
pub fn parse_val(v: &Vec<char>, i: usize) -> (r: Option<(FieldValue, usize)>)
    requires
        i <= v@.len(),
    ensures
        r matches Some(p) ==> i < p.1 <= v@.len() && val_wf(p.0@),
        r matches Some(p) ==> v@.subrange(i as int, p.1 as int) == spec_val(p.0@) && (p.0@
            matches SpecVal::I(_) ==> p.1 == v@.len() || !is_digit_char(v@[p.1 as int])),
        forall|val: SpecVal|
            val_wf(val) && #[trigger] val_prefix_at(v@, i as int, val) ==> (r matches Some(p)
                && p.0@ == val && p.1 == i + spec_val(val).len()),
{
    proof {
        assert forall|val: SpecVal|
            val_wf(val) && #[trigger] val_prefix_at(v@, i as int, val) implies (i < v@.len()
            && match val {
            SpecVal::S(_) => v@[i as int] == '"',
            SpecVal::I(n) => v@[i as int] == '-' || is_digit_char(v@[i as int]),
        }) by {
            match val {
                SpecVal::S(s) => {
                    assert(v@[i as int] == spec_quote(s)[0]);
                },
                SpecVal::I(n) => {
                    let m: nat = if n < 0 {
                        (-n) as nat
                    } else {
                        n as nat
                    };
                    lemma_dec_digits_facts(m);
                    assert(v@[i as int] == spec_int(n)[0]);
                    if n >= 0 {
                        assert(spec_int(n)[0] == dec_digits(m)[0]);
                    }
                },
            }
        }
    }
    if i < v.len() && v[i] == '"' {
        match parse_string(v, i) {
            None => {
                proof {
                    assert forall|val: SpecVal|
                        val_wf(val) && #[trigger] val_prefix_at(v@, i as int, val) implies false by {
                        match val {
                            SpecVal::S(s) => {},
                            SpecVal::I(n) => {
                                lemma_dec_digits_facts(
                                    if n < 0 {
                                        (-n) as nat
                                    } else {
                                        n as nat
                                    },
                                );
                            },
                        }
                    }
                }
                None
            },
            Some((s, n)) => {
                let r = FieldValue::Text(s);
                proof {
                    assert forall|val: SpecVal|
                        val_wf(val) && #[trigger] val_prefix_at(v@, i as int, val) implies (r@
                        == val && n == i + spec_val(val).len()) by {
                        match val {
                            SpecVal::S(s2) => {},
                            SpecVal::I(n2) => {
                                lemma_dec_digits_facts(
                                    if n2 < 0 {
                                        (-n2) as nat
                                    } else {
                                        n2 as nat
                                    },
                                );
                            },
                        }
                    }
                }
                Some((r, n))
            },
        }
    } else if i < v.len() && (v[i] == '-' || is_digit_exec(v[i])) {
        match parse_int(v, i) {
            None => {
                proof {
                    assert forall|val: SpecVal|
                        val_wf(val) && #[trigger] val_prefix_at(v@, i as int, val) implies false by {
                        match val {
                            SpecVal::S(s) => {
                                assert(!is_digit_char('"'));
                            },
                            SpecVal::I(n) => {},
                        }
                    }
                }
                None
            },
            Some((x, n)) => {
                let r = FieldValue::Int(x);
                proof {
                    assert forall|val: SpecVal|
                        val_wf(val) && #[trigger] val_prefix_at(v@, i as int, val) implies (r@
                        == val && n == i + spec_val(val).len()) by {
                        match val {
                            SpecVal::S(s2) => {
                                assert(!is_digit_char('"'));
                            },
                            SpecVal::I(n2) => {},
                        }
                    }
                }
                Some((r, n))
            },
        }
    } else {
        proof {
            assert forall|val: SpecVal|
                val_wf(val) && #[trigger] val_prefix_at(v@, i as int, val) implies false by {}
        }
        None
    }
}


pub fn eq_chars_vec(a: &Vec<char>, b: &Vec<char>) -> (r: bool)
    ensures
        r == (a@ == b@),
{
    if a.len() != b.len() {
        return false;
    }
    let mut k: usize = 0;
    while k < a.len()
        invariant
            k <= a@.len(),
            a@.len() == b@.len(),
            forall|m: int| 0 <= m < k ==> a@[m] == b@[m],
        decreases a@.len() - k,
    {
        if a[k] != b[k] {
            return false;
        }
        k = k + 1;
    }
    proof {
        assert(a@ =~= b@);
    }
    true
}

/// Whether two field lists carry the same members in the same order.
pub fn eq_field_lists(a: &Vec<Field>, b: &Vec<Field>) -> (r: bool)
    ensures
        r == (views_of(a@) == views_of(b@)),
{
    if a.len() != b.len() {
        proof {
            assert(views_of(a@).len() != views_of(b@).len());
        }
        return false;
    }
    let mut k: usize = 0;
    while k < a.len()
        invariant
            k <= a@.len(),
            a@.len() == b@.len(),
            forall|m: int| 0 <= m < k ==> views_of(a@)[m] == views_of(b@)[m],
        decreases a@.len() - k,
    {
        proof {
            assert(views_of(a@)[k as int] == a@[k as int]@);
            assert(views_of(b@)[k as int] == b@[k as int]@);
        }
        if !eq_chars_vec(&a[k].name, &b[k].name) {
            proof {
                assert(views_of(a@)[k as int] != views_of(b@)[k as int]);
            }
            return false;
        }
        let same = match (&a[k].value, &b[k].value) {
            (FieldValue::Text(x), FieldValue::Text(y)) => eq_chars_vec(x, y),
            (FieldValue::Int(x), FieldValue::Int(y)) => *x == *y,
            _ => false,
        };
        if !same {
            proof {
                assert(views_of(a@)[k as int] != views_of(b@)[k as int]);
            }
            return false;
        }
        k = k + 1;
    }
    proof {
        assert(views_of(a@) =~= views_of(b@));
    }
    true
}

/// First value bound to `name` in a field list.
pub open spec fn find_val(fs: Seq<(Seq<char>, SpecVal)>, name: Seq<char>) -> Option<SpecVal>
    decreases fs.len(),
{
    if fs.len() == 0 {
        Option::None
    } else if fs[0].0 == name {
        Option::Some(fs[0].1)
    } else {
        find_val(fs.skip(1), name)
    }
}

pub proof fn lemma_find_concat(a: Seq<(Seq<char>, SpecVal)>, b: Seq<(Seq<char>, SpecVal)>, name: Seq<char>)
    ensures
        find_val(a + b, name) == if find_val(a, name) is Some {
            find_val(a, name)
        } else {
            find_val(b, name)
        },
    decreases a.len(),
{
    if a.len() == 0 {
        assert(a + b =~= b);
    } else {
        assert((a + b).skip(1) =~= a.skip(1) + b);
        lemma_find_concat(a.skip(1), b, name);
        assert((a + b)[0] == a[0]);
    }
}

/// Index of the first field named `name`.
pub fn find_field(fs: &Vec<Field>, name: &str) -> (r: Option<usize>)
    ensures
        match r {
            Option::Some(j) => j < fs@.len() && views_of(fs@)[j as int].0 == name@ && find_val(
                views_of(fs@),
                name@,
            ) == Option::Some(views_of(fs@)[j as int].1),
            Option::None => find_val(views_of(fs@), name@) is None,
        },
{
    let ghost vs = views_of(fs@);
    let mut j: usize = 0;
    proof {
        assert(vs.skip(0) =~= vs);
    }
    while j < fs.len()
        invariant
            j <= fs@.len(),
            vs == views_of(fs@),
            vs.len() == fs@.len(),
            find_val(vs, name@) == find_val(vs.skip(j as int), name@),
        decreases fs@.len() - j,
    {
        if eq_chars_str(&fs[j].name, name) {
            proof {
                assert(vs.skip(j as int)[0] == vs[j as int]);
                assert(vs[j as int].0 == name@);
            }
            return Some(j);
        }
        proof {
            assert(vs.skip(j as int)[0] == vs[j as int]);
            assert(vs.skip(j as int).skip(1) =~= vs.skip(j as int + 1));
        }
        j = j + 1;
    }
    proof {
        assert(vs.skip(fs@.len() as int) =~= Seq::<(Seq<char>, SpecVal)>::empty());
    }
    None
}

/// One member, with whitespace between its tokens, reads as its canonical
/// pair text.
pub proof fn lemma_member_interleave(
    v: Seq<char>,
    i: int,
    i1: int,
    i2: int,
    i3: int,
    i4: int,
    i5: int,
    i6: int,
    name: Seq<char>,
    val: SpecVal,
)
    requires
        0 <= i <= i1 <= i2 <= i3 < i3 + 1 <= i4 <= i5 <= i6 <= v.len(),
        forall|k: int| i <= k < i1 ==> is_ws_char(#[trigger] v[k]),
        v.subrange(i1, i2) == spec_quote(name),
        forall|k: int| i2 <= k < i3 ==> is_ws_char(#[trigger] v[k]),
        v[i3] == ':',
        forall|k: int| i3 + 1 <= k < i4 ==> is_ws_char(#[trigger] v[k]),
        v.subrange(i4, i5) == spec_val(val),
        forall|k: int| i5 <= k < i6 ==> is_ws_char(#[trigger] v[k]),
    ensures
        ws_interleave(v.subrange(i, i6), spec_pair((name, val))),
{
    lemma_wsint_ws(v.subrange(i, i1));
    lemma_wsint_refl(v.subrange(i1, i2));
    lemma_wsint_ws(v.subrange(i2, i3));
    lemma_wsint_refl(seq![':']);
    assert(v.subrange(i3, i3 + 1) =~= seq![':']);
    lemma_wsint_ws(v.subrange(i3 + 1, i4));
    lemma_wsint_refl(v.subrange(i4, i5));
    lemma_wsint_ws(v.subrange(i5, i6));
    let e = Seq::<char>::empty();
    lemma_wsint_concat(v.subrange(i, i1), e, v.subrange(i1, i2), v.subrange(i1, i2));
    let t1 = v.subrange(i, i1) + v.subrange(i1, i2);
    let c1 = e + v.subrange(i1, i2);
    lemma_wsint_concat(t1, c1, v.subrange(i2, i3), e);
    let t2 = t1 + v.subrange(i2, i3);
    let c2 = c1 + e;
    lemma_wsint_concat(t2, c2, v.subrange(i3, i3 + 1), seq![':']);
    let t3 = t2 + v.subrange(i3, i3 + 1);
    let c3 = c2 + seq![':'];
    lemma_wsint_concat(t3, c3, v.subrange(i3 + 1, i4), e);
    let t4 = t3 + v.subrange(i3 + 1, i4);
    let c4 = c3 + e;
    lemma_wsint_concat(t4, c4, v.subrange(i4, i5), v.subrange(i4, i5));
    let t5 = t4 + v.subrange(i4, i5);
    let c5 = c4 + v.subrange(i4, i5);
    lemma_wsint_concat(t5, c5, v.subrange(i5, i6), e);
    assert(t5 + v.subrange(i5, i6) =~= v.subrange(i, i6));
    assert(c5 + e =~= spec_pair((name, val)));
}

/// Appending the closing brace to a member keeps the reading.
pub proof fn lemma_member_close(v: Seq<char>, i: int, i6: int, p: (Seq<char>, SpecVal))
    requires
        0 <= i <= i6 < v.len(),
        ws_interleave(v.subrange(i, i6), spec_pair(p)),
        v[i6] == '}',
    ensures
        ws_interleave(v.subrange(i, i6 + 1), spec_fields(seq![p]) + seq!['}']),
{
    lemma_wsint_refl(seq!['}']);
    assert(v.subrange(i6, i6 + 1) =~= seq!['}']);
    lemma_wsint_concat(v.subrange(i, i6), spec_pair(p), v.subrange(i6, i6 + 1), seq!['}']);
    assert(v.subrange(i, i6) + v.subrange(i6, i6 + 1) =~= v.subrange(i, i6 + 1));
    assert(spec_fields(seq![p]) == spec_pair(p));
}

/// Appending the separator and the remaining members keeps the reading.
pub proof fn lemma_member_sep(
    v: Seq<char>,
    i: int,
    i6: int,
    j: int,
    p: (Seq<char>, SpecVal),
    rest: Seq<(Seq<char>, SpecVal)>,
)
    requires
        0 <= i <= i6 < i6 + 1 <= j <= v.len(),
        ws_interleave(v.subrange(i, i6), spec_pair(p)),
        v[i6] == ',',
        ws_interleave(v.subrange(i6 + 1, j), spec_fields(rest) + seq!['}']),
        rest.len() >= 1,
    ensures
        ws_interleave(v.subrange(i, j), spec_fields(seq![p] + rest) + seq!['}']),
{
    lemma_wsint_refl(seq![',']);
    assert(v.subrange(i6, i6 + 1) =~= seq![',']);
    lemma_wsint_concat(v.subrange(i, i6), spec_pair(p), v.subrange(i6, i6 + 1), seq![',']);
    lemma_wsint_concat(
        v.subrange(i, i6) + v.subrange(i6, i6 + 1),
        spec_pair(p) + seq![','],
        v.subrange(i6 + 1, j),
        spec_fields(rest) + seq!['}'],
    );
    assert(v.subrange(i, i6) + v.subrange(i6, i6 + 1) + v.subrange(i6 + 1, j) =~= v.subrange(
        i,
        j,
    ));
    assert((seq![p] + rest)[0] == p);
    assert((seq![p] + rest).skip(1) =~= rest);
    assert(spec_fields(seq![p] + rest) == spec_pair(p) + seq![','] + spec_fields(rest));
    assert(spec_pair(p) + seq![','] + (spec_fields(rest) + seq!['}']) =~= spec_fields(
        seq![p] + rest,
    ) + seq!['}']);
}

/// Parses the members of the data object, starting just after its opening
/// brace and consuming the closing brace. On success the consumed text is
/// the canonical member list (plus the brace), up to whitespace between
/// tokens.
#[verifier::rlimit(100)]
pub fn parse_fields(v: &Vec<char>, i: usize, out: &mut Vec<Field>) -> (r: Option<usize>)
    requires
        i <= v@.len(),
    ensures
        r matches Some(j) ==> i < j <= v@.len(),
        r matches Some(j) ==> (fields_wf(views_of(old(out)@)) ==> fields_wf(
            views_of(final(out)@),
        )),
        r matches Some(j) ==> final(out)@.len() >= old(out)@.len() && final(out)@.take(
            old(out)@.len() as int,
        ) == old(out)@,
        r matches Some(j) ==> ws_interleave(
            v@.subrange(i as int, j as int),
            spec_fields(views_of(final(out)@.skip(old(out)@.len() as int))) + seq!['}'],
        ),
        forall|fs: Seq<(Seq<char>, SpecVal)>|
            fields_wf(fs) && #[trigger] fields_prefix_at(v@, i as int, fs) ==> (r matches Some(j)
                && j == i + spec_fields(fs).len() + 1 && views_of(final(out)@) == views_of(
                old(out)@,
            ) + fs),
    decreases v@.len() - i,
{
    let i1 = skip_ws(v, i);
    proof {
        assert forall|fs: Seq<(Seq<char>, SpecVal)>|
            fields_wf(fs) && #[trigger] fields_prefix_at(v@, i as int, fs) implies (i1 == i
            && i < v@.len() && (fs.len() == 0 ==> v@[i as int] == '}') && (fs.len() > 0
            ==> quote_prefix_at(v@, i as int, fs[0].0) && v@[i as int] == '"')) by {
            let t = spec_fields(fs) + seq!['}'];
            assert(v@[i as int] == t[0]) by {
                assert(v@[i as int] == v@.subrange(i as int, i + t.len() as int)[0]);
            }
            if fs.len() == 0 {
                assert(t[0] == '}');
                assert(!is_ws_char('}'));
            } else {
                assert(spec_fields(fs) == spec_pair(fs[0]) + (if fs.len() == 1 {
                    Seq::<char>::empty()
                } else {
                    seq![','] + spec_fields(fs.skip(1))
                })) by {
                    if fs.len() == 1 {
                        assert(spec_pair(fs[0]) + Seq::<char>::empty() =~= spec_pair(fs[0]));
                    }
                }
                let rest = (if fs.len() == 1 {
                    Seq::<char>::empty()
                } else {
                    seq![','] + spec_fields(fs.skip(1))
                }) + seq!['}'];
                assert(t =~= spec_quote(fs[0].0) + ((seq![':'] + spec_val(fs[0].1)) + rest));
                lemma_prefix_shift(
                    v@,
                    i as int,
                    spec_quote(fs[0].0),
                    (seq![':'] + spec_val(fs[0].1)) + rest,
                );
                assert(t[0] == spec_quote(fs[0].0)[0]);
                assert(!is_ws_char('"'));
            }
        }
    }
    if i1 >= v.len() {
        proof {
            assert forall|fs: Seq<(Seq<char>, SpecVal)>|
                fields_wf(fs) && #[trigger] fields_prefix_at(v@, i as int, fs) implies false by {}
        }
        return None;
    }
    if v[i1] == '}' {
        proof {
            assert forall|fs: Seq<(Seq<char>, SpecVal)>|
                fields_wf(fs) && #[trigger] fields_prefix_at(v@, i as int, fs) implies (fs.len()
                == 0 && i1 + 1 == i + spec_fields(fs).len() + 1 && views_of(out@) == views_of(
                old(out)@,
            ) + fs) by {
                if fs.len() > 0 {
                    assert(v@[i as int] == '"');
                }
                assert(views_of(out@) =~= views_of(old(out)@) + fs);
            }
            // soundness: whitespace, then the closing brace
            assert(out@.skip(old(out)@.len() as int) =~= Seq::<Field>::empty());
            assert(views_of(Seq::<Field>::empty()) =~= Seq::<(Seq<char>, SpecVal)>::empty());
            assert(out@.take(old(out)@.len() as int) =~= old(out)@);
            lemma_wsint_ws(v@.subrange(i as int, i1 as int));
            lemma_wsint_refl(seq!['}']);
            assert(v@.subrange(i1 as int, i1 + 1) =~= seq!['}']);
            lemma_wsint_concat(
                v@.subrange(i as int, i1 as int),
                Seq::<char>::empty(),
                v@.subrange(i1 as int, i1 + 1),
                seq!['}'],
            );
            assert(v@.subrange(i as int, i1 as int) + v@.subrange(i1 as int, i1 + 1)
                =~= v@.subrange(i as int, i1 + 1));
            assert(Seq::<char>::empty() + seq!['}'] =~= seq!['}']);
            assert(spec_fields(Seq::<(Seq<char>, SpecVal)>::empty()) + seq!['}'] =~= seq!['}']);
        }
        return Some(i1 + 1);
    }
    // one member: name, colon, value
    let (name, i2) = match parse_string(v, i1) {
        None => {
            proof {
                assert forall|fs: Seq<(Seq<char>, SpecVal)>|
                    fields_wf(fs) && #[trigger] fields_prefix_at(v@, i as int, fs) implies false by {
                    if fs.len() == 0 {
                        assert(v@[i as int] == '}');
                    } else {
                        assert(str_wf(fs[0].0)) by {
                            assert(pair_wf(fs[0]));
                        }
                    }
                }
            }
            return None;
        },
        Some(p) => p,
    };
    proof {
        assert forall|fs: Seq<(Seq<char>, SpecVal)>|
            fields_wf(fs) && #[trigger] fields_prefix_at(v@, i as int, fs) implies (fs.len() > 0
            && name@ == fs[0].0 && i2 == i + spec_quote(fs[0].0).len() && i2 < v@.len()
            && v@[i2 as int] == ':') by {
            assert(str_wf(fs[0].0)) by {
                assert(pair_wf(fs[0]));
            }
            let t = spec_fields(fs) + seq!['}'];
            let rest = (if fs.len() == 1 {
                Seq::<char>::empty()
            } else {
                seq![','] + spec_fields(fs.skip(1))
            }) + seq!['}'];
            assert(t =~= spec_quote(fs[0].0) + ((seq![':'] + spec_val(fs[0].1)) + rest));
            lemma_prefix_shift(
                v@,
                i as int,
                spec_quote(fs[0].0),
                (seq![':'] + spec_val(fs[0].1)) + rest,
            );
            let q = spec_quote(fs[0].0).len() as int;
            assert(v@[i + q] == ((seq![':'] + spec_val(fs[0].1)) + rest)[0]) by {
                assert(v@[i + q] == v@.subrange(
                    i + q,
                    i + q + (seq![':'] + spec_val(fs[0].1) + rest).len() as int,
                )[0]);
                assert((seq![':'] + spec_val(fs[0].1)) + rest =~= seq![':'] + (spec_val(fs[0].1)
                    + rest));
            }
        }
    }
    let i3 = skip_ws(v, i2);
    if i3 >= v.len() || v[i3] != ':' {
        proof {
            assert forall|fs: Seq<(Seq<char>, SpecVal)>|
                fields_wf(fs) && #[trigger] fields_prefix_at(v@, i as int, fs) implies false by {
                assert(!is_ws_char(':'));
            }
        }
        return None;
    }
    proof {
        assert forall|fs: Seq<(Seq<char>, SpecVal)>|
            fields_wf(fs) && #[trigger] fields_prefix_at(v@, i as int, fs) implies (i3 == i2
            && val_prefix_at(v@, i2 + 1, fs[0].1) && val_wf(fs[0].1)) by {
            assert(!is_ws_char(':'));
            assert(pair_wf(fs[0]));
            let t = spec_fields(fs) + seq!['}'];
            let rest = (if fs.len() == 1 {
                Seq::<char>::empty()
            } else {
                seq![','] + spec_fields(fs.skip(1))
            }) + seq!['}'];
            assert(t =~= spec_quote(fs[0].0) + ((seq![':'] + spec_val(fs[0].1)) + rest));
            lemma_prefix_shift(
                v@,
                i as int,
                spec_quote(fs[0].0),
                (seq![':'] + spec_val(fs[0].1)) + rest,
            );
            let q = spec_quote(fs[0].0).len() as int;
            assert((seq![':'] + spec_val(fs[0].1)) + rest =~= seq![':'] + (spec_val(fs[0].1)
                + rest));
            lemma_prefix_shift(v@, i + q, seq![':'], spec_val(fs[0].1) + rest);
            lemma_prefix_shift(v@, i + q + 1, spec_val(fs[0].1), rest);
            // the character after the value is the separator or the brace
            let after = i + q + 1 + spec_val(fs[0].1).len() as int;
            assert(v@[after] == rest[0]) by {
                assert(v@[after] == v@.subrange(after, after + rest.len() as int)[0]);
            }
            assert(rest[0] == ',' || rest[0] == '}');
            match fs[0].1 {
                SpecVal::S(sv) => {
                    assert(quote_prefix_at(v@, i2 + 1, sv));
                },
                SpecVal::I(nv) => {
                    assert(!is_digit_char(rest[0]));
                    assert(int_prefix_at(v@, i2 + 1, nv));
                },
            }
        }
    }
    let i4 = skip_ws(v, i3 + 1);
    proof {
        assert forall|fs: Seq<(Seq<char>, SpecVal)>|
            fields_wf(fs) && #[trigger] fields_prefix_at(v@, i as int, fs) implies (i4 as int == i3
            + 1 && val_prefix_at(v@, i4 as int, fs[0].1)) by {
            let vstart: int = i3 + 1;
            assert(!is_ws_char(v@[vstart])) by {
                match fs[0].1 {
                    SpecVal::S(sv) => {
                        assert(v@[vstart] == v@.subrange(
                            vstart,
                            vstart + spec_quote(sv).len() as int,
                        )[0]);
                        assert(v@[vstart] == spec_quote(sv)[0]);
                    },
                    SpecVal::I(nv) => {
                        let m: nat = if nv < 0 {
                            (-nv) as nat
                        } else {
                            nv as nat
                        };
                        lemma_dec_digits_facts(m);
                        assert(v@[vstart] == v@.subrange(
                            vstart,
                            vstart + spec_int(nv).len() as int,
                        )[0]);
                        assert(v@[vstart] == spec_int(nv)[0]);
                        if nv >= 0 {
                            assert(spec_int(nv)[0] == dec_digits(m)[0]);
                            assert(is_digit_char(v@[vstart]));
                        }
                    },
                }
            }
            if i4 as int != vstart {
                assert(is_ws_char(v@[vstart]));
            }
        }
    }
    let (value, i5) = match parse_val(v, i4) {
        None => {
            proof {
                assert forall|fs: Seq<(Seq<char>, SpecVal)>|
                    fields_wf(fs) && #[trigger] fields_prefix_at(v@, i as int, fs) implies false by {}
            }
            return None;
        },
        Some(p) => p,
    };
    let ghost out_mid = out@;
    out.push(Field { name, value });
    proof {
        assert(views_of(out@) =~= views_of(out_mid).push((name@, value@)));
        assert(fields_wf(views_of(out_mid)) ==> fields_wf(views_of(out@))) by {
            if fields_wf(views_of(out_mid)) {
                assert(forall|k: int|
                    0 <= k < views_of(out@).len() ==> pair_wf(#[trigger] views_of(out@)[k]));
            }
        }
    }
    let i6 = skip_ws(v, i5);
    proof {
        assert forall|fs: Seq<(Seq<char>, SpecVal)>|
            fields_wf(fs) && #[trigger] fields_prefix_at(v@, i as int, fs) implies (i6 == i5 && i5
            == i + spec_pair(fs[0]).len() && i5 < v@.len() && (fs.len() == 1 ==> v@[i5 as int]
            == '}') && (fs.len() > 1 ==> v@[i5 as int] == ',' && fields_prefix_at(
            v@,
            i5 + 1,
            fs.skip(1),
        ))) by {
            let t = spec_fields(fs) + seq!['}'];
            let rest = (if fs.len() == 1 {
                Seq::<char>::empty()
            } else {
                seq![','] + spec_fields(fs.skip(1))
            }) + seq!['}'];
            assert(t =~= spec_quote(fs[0].0) + ((seq![':'] + spec_val(fs[0].1)) + rest));
            lemma_prefix_shift(
                v@,
                i as int,
                spec_quote(fs[0].0),
                (seq![':'] + spec_val(fs[0].1)) + rest,
            );
            let q = spec_quote(fs[0].0).len() as int;
            assert((seq![':'] + spec_val(fs[0].1)) + rest =~= seq![':'] + (spec_val(fs[0].1)
                + rest));
            lemma_prefix_shift(v@, i + q, seq![':'], spec_val(fs[0].1) + rest);
            lemma_prefix_shift(v@, i + q + 1, spec_val(fs[0].1), rest);
            let after = i + q + 1 + spec_val(fs[0].1).len() as int;
            assert(i5 == after);
            assert(v@[after] == rest[0]) by {
                assert(v@[after] == v@.subrange(after, after + rest.len() as int)[0]);
            }
            if fs.len() == 1 {
                assert(rest[0] == '}');
                assert(!is_ws_char('}'));
            } else {
                assert(rest =~= seq![','] + (spec_fields(fs.skip(1)) + seq!['}']));
                assert(rest[0] == ',');
                assert(!is_ws_char(','));
                lemma_prefix_shift(v@, after, seq![','], spec_fields(fs.skip(1)) + seq!['}']);
                assert(fields_wf(fs.skip(1))) by {
                    assert(forall|k: int|
                        0 <= k < fs.skip(1).len() ==> pair_wf(#[trigger] fs.skip(1)[k]));
                }
            }
        }
        // soundness of the consumed member
        assert(v@.subrange(i1 as int, i2 as int) == spec_quote(name@));
        assert(v@.subrange(i4 as int, i5 as int) == spec_val(value@));
        lemma_member_interleave(
            v@,
            i as int,
            i1 as int,
            i2 as int,
            i3 as int,
            i4 as int,
            i5 as int,
            i6 as int,
            name@,
            value@,
        );
    }
    if i6 >= v.len() {
        proof {
            assert forall|fs: Seq<(Seq<char>, SpecVal)>|
                fields_wf(fs) && #[trigger] fields_prefix_at(v@, i as int, fs) implies false by {}
        }
        return None;
    }
    if v[i6] == ',' {
        let before_len = out.len();
        let res = parse_fields(v, i6 + 1, out);
        match res {
            None => {
                proof {
                    assert forall|fs: Seq<(Seq<char>, SpecVal)>|
                        fields_wf(fs) && #[trigger] fields_prefix_at(
                            v@,
                            i as int,
                            fs,
                        ) implies false by {
                        assert(fs.len() > 1) by {
                            if fs.len() == 1 {
                                assert(v@[i5 as int] == '}');
                            }
                        }
                        assert(fields_wf(fs.skip(1))) by {
                            assert(forall|k: int|
                                0 <= k < fs.skip(1).len() ==> pair_wf(#[trigger] fs.skip(1)[k]));
                        }
                        assert(fields_prefix_at(v@, i6 + 1, fs.skip(1)));
                    }
                }
                return None;
            },
            Some(j) => {
                if out.len() == before_len {
                    // a separator with no member after it is not canonical
                    proof {
                        assert forall|fs: Seq<(Seq<char>, SpecVal)>|
                            fields_wf(fs) && #[trigger] fields_prefix_at(
                                v@,
                                i as int,
                                fs,
                            ) implies false by {
                            assert(fs.len() > 1) by {
                                if fs.len() == 1 {
                                    assert(v@[i5 as int] == '}');
                                }
                            }
                            assert(fields_wf(fs.skip(1))) by {
                                assert(forall|k: int|
                                    0 <= k < fs.skip(1).len() ==> pair_wf(
                                        #[trigger] fs.skip(1)[k],
                                    ));
                            }
                            assert(fields_prefix_at(v@, i6 + 1, fs.skip(1)));
                            assert(out@.len() > before_len as int);
                        }
                    }
                    return None;
                }
                proof {
                    // completeness
                    assert forall|fs: Seq<(Seq<char>, SpecVal)>|
                        fields_wf(fs) && #[trigger] fields_prefix_at(v@, i as int, fs) implies (j
                        == i + spec_fields(fs).len() + 1 && views_of(out@) == views_of(old(out)@)
                        + fs) by {
                        assert(fs.len() > 1) by {
                            if fs.len() == 1 {
                                assert(v@[i5 as int] == '}');
                            }
                        }
                        assert(fields_wf(fs.skip(1))) by {
                            assert(forall|k: int|
                                0 <= k < fs.skip(1).len() ==> pair_wf(#[trigger] fs.skip(1)[k]));
                        }
                        assert(fields_prefix_at(v@, i6 + 1, fs.skip(1)));
                        assert(spec_fields(fs) == spec_pair(fs[0]) + seq![','] + spec_fields(
                            fs.skip(1),
                        ));
                        assert(views_of(out@) =~= views_of(old(out)@) + fs) by {
                            assert((name@, value@) == fs[0]);
                            assert(views_of(old(out)@).push(fs[0]) + fs.skip(1) =~= views_of(
                                old(out)@,
                            ) + fs);
                        }
                    }
                    // soundness: member, separator, remaining members
                    let mid_len = out_mid.len() + 1;
                    assert(out@.take(mid_len as int) == out_mid.push(
                        Field { name: name, value: value },
                    ));
                    assert(out@.take(old(out)@.len() as int) =~= old(out)@);
                    let fresh = out@.skip(old(out)@.len() as int);
                    let rest_fields = out@.skip(mid_len as int);
                    assert(out@[old(out)@.len() as int]@ == (name@, value@)) by {
                        assert(out@[old(out)@.len() as int] == out@.take(mid_len as int)[old(
                            out,
                        )@.len() as int]);
                    }
                    assert(views_of(fresh) =~= seq![(name@, value@)] + views_of(rest_fields));
                    assert(rest_fields.len() >= 1) by {
                        assert(out@.len() > before_len as int);
                    }
                    lemma_member_sep(
                        v@,
                        i as int,
                        i6 as int,
                        j as int,
                        (name@, value@),
                        views_of(rest_fields),
                    );
                    assert(seq![(name@, value@)] + views_of(rest_fields) =~= views_of(fresh));
                }
                return Some(j);
            },
        }
    }
    if v[i6] == '}' {
        proof {
            assert forall|fs: Seq<(Seq<char>, SpecVal)>|
                fields_wf(fs) && #[trigger] fields_prefix_at(v@, i as int, fs) implies (i6 + 1 == i
                + spec_fields(fs).len() + 1 && views_of(out@) == views_of(old(out)@) + fs) by {
                assert(fs.len() == 1) by {
                    if fs.len() > 1 {
                        assert(v@[i5 as int] == ',');
                    }
                }
                assert(spec_fields(fs) == spec_pair(fs[0]));
                assert((name@, value@) == fs[0]);
                assert(views_of(out@) =~= views_of(old(out)@) + fs);
            }
            // soundness: the one member and the closing brace
            assert(out@.take(old(out)@.len() as int) =~= old(out)@);
            let fresh = out@.skip(old(out)@.len() as int);
            assert(fresh =~= seq![Field { name: name, value: value }]);
            assert(views_of(fresh) =~= seq![(name@, value@)]);
            lemma_member_close(v@, i as int, i6 as int, (name@, value@));
        }
        return Some(i6 + 1);
    }
    proof {
        assert forall|fs: Seq<(Seq<char>, SpecVal)>|
            fields_wf(fs) && #[trigger] fields_prefix_at(v@, i as int, fs) implies false by {}
    }
    None
}

/// A whole message, with whitespace between its tokens, reads as its
/// canonical wire text.
#[verifier::rlimit(100)]
pub proof fn lemma_message_interleave(
    v: Seq<char>,
    i0: int,
    i0b: int,
    p1: int,
    i1: int,
    i2: int,
    p2: int,
    i3: int,
    i4: int,
    p3: int,
    i5: int,
    i6: int,
    j: int,
    j1: int,
    tag: Seq<char>,
    fs: Seq<(Seq<char>, SpecVal)>,
)
    requires
        0 <= i0 < i0 + 1 <= i0b <= p1 <= i1 < i1 + 1 <= i2 <= p2 <= i3 < i3 + 1 <= i4 <= p3 <= i5
            < i5 + 1 <= i6 < i6 + 1 <= j <= j1 < j1 + 1 <= v.len(),
        forall|k: int| 0 <= k < i0 ==> is_ws_char(#[trigger] v[k]),
        v[i0] == '{',
        forall|k: int| i0 + 1 <= k < i0b ==> is_ws_char(#[trigger] v[k]),
        v.subrange(i0b, p1) == spec_quote("type"@),
        forall|k: int| p1 <= k < i1 ==> is_ws_char(#[trigger] v[k]),
        v[i1] == ':',
        forall|k: int| i1 + 1 <= k < i2 ==> is_ws_char(#[trigger] v[k]),
        v.subrange(i2, p2) == spec_quote(tag),
        forall|k: int| p2 <= k < i3 ==> is_ws_char(#[trigger] v[k]),
        v[i3] == ',',
        forall|k: int| i3 + 1 <= k < i4 ==> is_ws_char(#[trigger] v[k]),
        v.subrange(i4, p3) == spec_quote("data"@),
        forall|k: int| p3 <= k < i5 ==> is_ws_char(#[trigger] v[k]),
        v[i5] == ':',
        forall|k: int| i5 + 1 <= k < i6 ==> is_ws_char(#[trigger] v[k]),
        v[i6] == '{',
        ws_interleave(v.subrange(i6 + 1, j), spec_fields(fs) + seq!['}']),
        forall|k: int| j <= k < j1 ==> is_ws_char(#[trigger] v[k]),
        v[j1] == '}',
        forall|k: int| j1 + 1 <= k < v.len() ==> is_ws_char(#[trigger] v[k]),
    ensures
        ws_interleave(v, spec_message(tag, fs)),
{
    let e = Seq::<char>::empty();
    lemma_wsint_ws(v.subrange(0, i0));
    lemma_wsint_refl(seq!['{']);
    assert(v.subrange(i0, i0 + 1) =~= seq!['{']);
    lemma_wsint_ws(v.subrange(i0 + 1, i0b));
    lemma_wsint_refl(v.subrange(i0b, p1));
    lemma_wsint_ws(v.subrange(p1, i1));
    lemma_wsint_refl(seq![':']);
    assert(v.subrange(i1, i1 + 1) =~= seq![':']);
    lemma_wsint_ws(v.subrange(i1 + 1, i2));
    lemma_wsint_refl(v.subrange(i2, p2));
    lemma_wsint_ws(v.subrange(p2, i3));
    lemma_wsint_refl(seq![',']);
    assert(v.subrange(i3, i3 + 1) =~= seq![',']);
    lemma_wsint_ws(v.subrange(i3 + 1, i4));
    lemma_wsint_refl(v.subrange(i4, p3));
    lemma_wsint_ws(v.subrange(p3, i5));
    assert(v.subrange(i5, i5 + 1) =~= seq![':']);
    lemma_wsint_ws(v.subrange(i5 + 1, i6));
    assert(v.subrange(i6, i6 + 1) =~= seq!['{']);
    lemma_wsint_ws(v.subrange(j, j1));
    lemma_wsint_refl(seq!['}']);
    assert(v.subrange(j1, j1 + 1) =~= seq!['}']);
    lemma_wsint_ws(v.subrange(j1 + 1, v.len() as int));
    let t1 = v.subrange(0, i0) + v.subrange(i0, i0 + 1);
    let c1 = e + seq!['{'];
    lemma_wsint_concat(v.subrange(0, i0), e, v.subrange(i0, i0 + 1), seq!['{']);
    let t2 = t1 + v.subrange(i0 + 1, i0b);
    let c2 = c1 + e;
    lemma_wsint_concat(t1, c1, v.subrange(i0 + 1, i0b), e);
    let t3 = t2 + v.subrange(i0b, p1);
    let c3 = c2 + spec_quote("type"@);
    lemma_wsint_concat(t2, c2, v.subrange(i0b, p1), v.subrange(i0b, p1));
    let t4 = t3 + v.subrange(p1, i1);
    let c4 = c3 + e;
    lemma_wsint_concat(t3, c3, v.subrange(p1, i1), e);
    let t5 = t4 + v.subrange(i1, i1 + 1);
    let c5 = c4 + seq![':'];
    lemma_wsint_concat(t4, c4, v.subrange(i1, i1 + 1), seq![':']);
    let t6 = t5 + v.subrange(i1 + 1, i2);
    let c6 = c5 + e;
    lemma_wsint_concat(t5, c5, v.subrange(i1 + 1, i2), e);
    let t7 = t6 + v.subrange(i2, p2);
    let c7 = c6 + spec_quote(tag);
    lemma_wsint_concat(t6, c6, v.subrange(i2, p2), v.subrange(i2, p2));
    let t8 = t7 + v.subrange(p2, i3);
    let c8 = c7 + e;
    lemma_wsint_concat(t7, c7, v.subrange(p2, i3), e);
    let t9 = t8 + v.subrange(i3, i3 + 1);
    let c9 = c8 + seq![','];
    lemma_wsint_concat(t8, c8, v.subrange(i3, i3 + 1), seq![',']);
    let t10 = t9 + v.subrange(i3 + 1, i4);
    let c10 = c9 + e;
    lemma_wsint_concat(t9, c9, v.subrange(i3 + 1, i4), e);
    let t11 = t10 + v.subrange(i4, p3);
    let c11 = c10 + spec_quote("data"@);
    lemma_wsint_concat(t10, c10, v.subrange(i4, p3), v.subrange(i4, p3));
    let t12 = t11 + v.subrange(p3, i5);
    let c12 = c11 + e;
    lemma_wsint_concat(t11, c11, v.subrange(p3, i5), e);
    let t13 = t12 + v.subrange(i5, i5 + 1);
    let c13 = c12 + seq![':'];
    lemma_wsint_concat(t12, c12, v.subrange(i5, i5 + 1), seq![':']);
    let t14 = t13 + v.subrange(i5 + 1, i6);
    let c14 = c13 + e;
    lemma_wsint_concat(t13, c13, v.subrange(i5 + 1, i6), e);
    let t15 = t14 + v.subrange(i6, i6 + 1);
    let c15 = c14 + seq!['{'];
    lemma_wsint_concat(t14, c14, v.subrange(i6, i6 + 1), seq!['{']);
    let t16 = t15 + v.subrange(i6 + 1, j);
    let c16 = c15 + (spec_fields(fs) + seq!['}']);
    lemma_wsint_concat(t15, c15, v.subrange(i6 + 1, j), spec_fields(fs) + seq!['}']);
    let t17 = t16 + v.subrange(j, j1);
    let c17 = c16 + e;
    lemma_wsint_concat(t16, c16, v.subrange(j, j1), e);
    let t18 = t17 + v.subrange(j1, j1 + 1);
    let c18 = c17 + seq!['}'];
    lemma_wsint_concat(t17, c17, v.subrange(j1, j1 + 1), seq!['}']);
    let t19 = t18 + v.subrange(j1 + 1, v.len() as int);
    let c19 = c18 + e;
    lemma_wsint_concat(t18, c18, v.subrange(j1 + 1, v.len() as int), e);
    assert(t19 =~= v);
    assert(c19 =~= spec_message(tag, fs));
}

} // verus!
