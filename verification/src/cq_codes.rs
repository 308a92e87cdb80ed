//! The payload record of each segment kind, and its segment capability:
//! the kind it carries, decoding from wire text, and encoding back.
//! Optional fields are omitted from the wire form when absent.
use vstd::prelude::*;

use crate::wire::{
    char_ok, eq_field_lists, fields_wf, find_field, find_val, pair_wf, str_to_chars, str_wf,
    val_wf, views_of, chars_to_string, ws_interleave, Field, FieldValue, SpecVal, spec_message,
};
use crate::cq_code::{
    decode_wire, encode_wire_kind, tag_chars, CQCode, CQCodeType, DecodeError, RawMessage,
};

verus! {

// ---------------------------------------------------------------------------
// spec views of optional and required fields
// ---------------------------------------------------------------------------

pub open spec fn oview_s(o: Option<String>) -> Option<Seq<char>> {
    match o {
        Option::Some(s) => Option::Some(s@),
        Option::None => Option::None,
    }
}

pub open spec fn oview_i32(o: Option<i32>) -> Option<int> {
    match o {
        Option::Some(n) => Option::Some(n as int),
        Option::None => Option::None,
    }
}

pub open spec fn oview_i64(o: Option<i64>) -> Option<int> {
    match o {
        Option::Some(n) => Option::Some(n as int),
        Option::None => Option::None,
    }
}

pub open spec fn omap_s(o: Option<String>) -> Option<SpecVal> {
    match o {
        Option::Some(s) => Option::Some(SpecVal::S(s@)),
        Option::None => Option::None,
    }
}

pub open spec fn omap_i32(o: Option<i32>) -> Option<SpecVal> {
    match o {
        Option::Some(n) => Option::Some(SpecVal::I(n as int)),
        Option::None => Option::None,
    }
}

pub open spec fn omap_i64(o: Option<i64>) -> Option<SpecVal> {
    match o {
        Option::Some(n) => Option::Some(SpecVal::I(n as int)),
        Option::None => Option::None,
    }
}

/// The wire members contributed by an optional string field: none when the
/// field is absent.
pub open spec fn opt_s(name: Seq<char>, o: Option<String>) -> Seq<(Seq<char>, SpecVal)> {
    match o {
        Option::Some(s) => seq![(name, SpecVal::S(s@))],
        Option::None => Seq::empty(),
    }
}

pub open spec fn opt_i32(name: Seq<char>, o: Option<i32>) -> Seq<(Seq<char>, SpecVal)> {
    match o {
        Option::Some(n) => seq![(name, SpecVal::I(n as int))],
        Option::None => Seq::empty(),
    }
}

pub open spec fn opt_i64(name: Seq<char>, o: Option<i64>) -> Seq<(Seq<char>, SpecVal)> {
    match o {
        Option::Some(n) => seq![(name, SpecVal::I(n as int))],
        Option::None => Seq::empty(),
    }
}

/// The wire member contributed by a required string field: always present.
pub open spec fn req_s(name: Seq<char>, s: String) -> Seq<(Seq<char>, SpecVal)> {
    seq![(name, SpecVal::S(s@))]
}

pub open spec fn ostr_wf(o: Option<String>) -> bool {
    match o {
        Option::Some(s) => str_wf(s@),
        Option::None => true,
    }
}

// ---------------------------------------------------------------------------
// shared lemmas
// ---------------------------------------------------------------------------

pub proof fn lemma_find_concat2(
    a: Seq<(Seq<char>, SpecVal)>,
    b: Seq<(Seq<char>, SpecVal)>,
    name: Seq<char>,
)
    ensures
        find_val(a + b, name) == if find_val(a, name) is Some {
            find_val(a, name)
        } else {
            find_val(b, name)
        },
    decreases a.len(),
{
    if a.len() == 0 {
        assert(a + b =~= b);
    } else {
        assert((a + b).skip(1) =~= a.skip(1) + b);
        lemma_find_concat2(a.skip(1), b, name);
        assert((a + b)[0] == a[0]);
    }
}

pub proof fn lemma_wf_concat(a: Seq<(Seq<char>, SpecVal)>, b: Seq<(Seq<char>, SpecVal)>)
    requires
        fields_wf(a),
        fields_wf(b),
    ensures
        fields_wf(a + b),
{
    assert forall|i: int| 0 <= i < (a + b).len() implies pair_wf(#[trigger] (a + b)[i]) by {
        if i < a.len() {
            assert((a + b)[i] == a[i]);
        } else {
            assert((a + b)[i] == b[i - a.len()]);
        }
    }
}

pub proof fn lemma_find_wf(fs: Seq<(Seq<char>, SpecVal)>, name: Seq<char>)
    requires
        fields_wf(fs),
    ensures
        find_val(fs, name) matches Some(v) ==> val_wf(v),
    decreases fs.len(),
{
    if fs.len() > 0 {
        assert(pair_wf(fs[0]));
        assert(fields_wf(fs.skip(1))) by {
            assert(forall|i: int| 0 <= i < fs.skip(1).len() ==> pair_wf(#[trigger] fs.skip(1)[i]));
        }
        lemma_find_wf(fs.skip(1), name);
    }
}

/// Well-formedness, lengths and leading characters of every wire field
/// name, used to tell the names of one record apart.
pub proof fn lemma_names()
    ensures
        str_wf("id"@) && "id"@.len() == 2 && "id"@[0] == 'i',
        str_wf("file"@) && "file"@.len() == 4 && "file"@[0] == 'f',
        str_wf("magic"@) && "magic"@.len() == 5 && "magic"@[0] == 'm',
        str_wf("url"@) && "url"@.len() == 3 && "url"@[0] == 'u',
        str_wf("cache"@) && "cache"@.len() == 5 && "cache"@[0] == 'c',
        str_wf("proxy"@) && "proxy"@.len() == 5 && "proxy"@[0] == 'p',
        str_wf("timeout"@) && "timeout"@.len() == 7 && "timeout"@[0] == 't',
        str_wf("cover"@) && "cover"@.len() == 5 && "cover"@[0] == 'c',
        str_wf("c"@) && "c"@.len() == 1 && "c"@[0] == 'c',
        str_wf("qq"@) && "qq"@.len() == 2 && "qq"@[0] == 'q',
        str_wf("name"@) && "name"@.len() == 4 && "name"@[0] == 'n',
        str_wf("title"@) && "title"@.len() == 5 && "title"@[0] == 't',
        str_wf("content"@) && "content"@.len() == 7 && "content"@[0] == 'c',
        str_wf("image"@) && "image"@.len() == 5 && "image"@[0] == 'i',
        str_wf("type"@) && "type"@.len() == 4 && "type"@[0] == 't',
        str_wf("audio"@) && "audio"@.len() == 5 && "audio"@[0] == 'a',
        str_wf("subType"@) && "subType"@.len() == 7 && "subType"@[0] == 's',
        str_wf("text"@) && "text"@.len() == 4 && "text"@[1] == 'e',
        str_wf("time"@) && "time"@.len() == 4 && "time"@[1] == 'i',
        str_wf("seq"@) && "seq"@.len() == 3 && "seq"@[0] == 's',
        str_wf("resid"@) && "resid"@.len() == 5 && "resid"@[0] == 'r',
        str_wf("data"@) && "data"@.len() == 4 && "data"@[0] == 'd',
{
    reveal_strlit("id");
    reveal_strlit("file");
    reveal_strlit("magic");
    reveal_strlit("url");
    reveal_strlit("cache");
    reveal_strlit("proxy");
    reveal_strlit("timeout");
    reveal_strlit("cover");
    reveal_strlit("c");
    reveal_strlit("qq");
    reveal_strlit("name");
    reveal_strlit("title");
    reveal_strlit("content");
    reveal_strlit("image");
    reveal_strlit("type");
    reveal_strlit("audio");
    reveal_strlit("subType");
    reveal_strlit("text");
    reveal_strlit("time");
    reveal_strlit("seq");
    reveal_strlit("resid");
    reveal_strlit("data");
    assert forall|i: int| 0 <= i < "id"@.len() implies char_ok(#[trigger] "id"@[i]) by {}
    assert forall|i: int| 0 <= i < "file"@.len() implies char_ok(#[trigger] "file"@[i]) by {}
    assert forall|i: int| 0 <= i < "magic"@.len() implies char_ok(#[trigger] "magic"@[i]) by {}
    assert forall|i: int| 0 <= i < "url"@.len() implies char_ok(#[trigger] "url"@[i]) by {}
    assert forall|i: int| 0 <= i < "cache"@.len() implies char_ok(#[trigger] "cache"@[i]) by {}
    assert forall|i: int| 0 <= i < "proxy"@.len() implies char_ok(#[trigger] "proxy"@[i]) by {}
    assert forall|i: int| 0 <= i < "timeout"@.len() implies char_ok(#[trigger] "timeout"@[i]) by {}
    assert forall|i: int| 0 <= i < "cover"@.len() implies char_ok(#[trigger] "cover"@[i]) by {}
    assert forall|i: int| 0 <= i < "c"@.len() implies char_ok(#[trigger] "c"@[i]) by {}
    assert forall|i: int| 0 <= i < "qq"@.len() implies char_ok(#[trigger] "qq"@[i]) by {}
    assert forall|i: int| 0 <= i < "name"@.len() implies char_ok(#[trigger] "name"@[i]) by {}
    assert forall|i: int| 0 <= i < "title"@.len() implies char_ok(#[trigger] "title"@[i]) by {}
    assert forall|i: int| 0 <= i < "content"@.len() implies char_ok(#[trigger] "content"@[i]) by {}
    assert forall|i: int| 0 <= i < "image"@.len() implies char_ok(#[trigger] "image"@[i]) by {}
    assert forall|i: int| 0 <= i < "type"@.len() implies char_ok(#[trigger] "type"@[i]) by {}
    assert forall|i: int| 0 <= i < "audio"@.len() implies char_ok(#[trigger] "audio"@[i]) by {}
    assert forall|i: int| 0 <= i < "subType"@.len() implies char_ok(#[trigger] "subType"@[i]) by {}
    assert forall|i: int| 0 <= i < "text"@.len() implies char_ok(#[trigger] "text"@[i]) by {}
    assert forall|i: int| 0 <= i < "time"@.len() implies char_ok(#[trigger] "time"@[i]) by {}
    assert forall|i: int| 0 <= i < "seq"@.len() implies char_ok(#[trigger] "seq"@[i]) by {}
    assert forall|i: int| 0 <= i < "resid"@.len() implies char_ok(#[trigger] "resid"@[i]) by {}
    assert forall|i: int| 0 <= i < "data"@.len() implies char_ok(#[trigger] "data"@[i]) by {}
}

// ---------------------------------------------------------------------------
// reading one field out of a decoded field list
// ---------------------------------------------------------------------------

pub fn get_opt_text(fs: &Vec<Field>, name: &str) -> (r: Result<Option<String>, DecodeError>)
    ensures
        match find_val(views_of(fs@), name@) {
            Option::None => r == Ok::<Option<String>, DecodeError>(Option::None),
            Option::Some(SpecVal::S(t)) => r matches Ok(o) && o matches Some(s2) && s2@ == t,
            Option::Some(SpecVal::I(_)) => r == Err::<Option<String>, DecodeError>(
                DecodeError::WrongFieldType,
            ),
        },
{
    match find_field(fs, name) {
        None => Ok(None),
        Some(j) => {
            proof {
                assert(views_of(fs@)[j as int] == fs@[j as int]@);
            }
            match &fs[j].value {
                FieldValue::Text(t) => Ok(Some(chars_to_string(t))),
                FieldValue::Int(_) => Err(DecodeError::WrongFieldType),
            }
        },
    }
}

pub fn get_req_text(fs: &Vec<Field>, name: &str) -> (r: Result<String, DecodeError>)
    ensures
        match find_val(views_of(fs@), name@) {
            Option::None => r == Err::<String, DecodeError>(DecodeError::MissingRequiredField),
            Option::Some(SpecVal::S(t)) => r matches Ok(s2) && s2@ == t,
            Option::Some(SpecVal::I(_)) => r == Err::<String, DecodeError>(
                DecodeError::WrongFieldType,
            ),
        },
{
    match find_field(fs, name) {
        None => Err(DecodeError::MissingRequiredField),
        Some(j) => {
            proof {
                assert(views_of(fs@)[j as int] == fs@[j as int]@);
            }
            match &fs[j].value {
                FieldValue::Text(t) => Ok(chars_to_string(t)),
                FieldValue::Int(_) => Err(DecodeError::WrongFieldType),
            }
        },
    }
}

pub fn get_opt_i32(fs: &Vec<Field>, name: &str) -> (r: Result<Option<i32>, DecodeError>)
    ensures
        match find_val(views_of(fs@), name@) {
            Option::None => r == Ok::<Option<i32>, DecodeError>(Option::None),
            Option::Some(SpecVal::I(n)) => if -0x8000_0000 <= n < 0x8000_0000 {
                r matches Ok(o) && o matches Some(x) && x as int == n
            } else {
                r == Err::<Option<i32>, DecodeError>(DecodeError::WrongFieldType)
            },
            Option::Some(SpecVal::S(_)) => r == Err::<Option<i32>, DecodeError>(
                DecodeError::WrongFieldType,
            ),
        },
{
    match find_field(fs, name) {
        None => Ok(None),
        Some(j) => {
            proof {
                assert(views_of(fs@)[j as int] == fs@[j as int]@);
            }
            match &fs[j].value {
                FieldValue::Text(_) => Err(DecodeError::WrongFieldType),
                FieldValue::Int(n) => {
                    let n = *n;
                    if n < -2147483648i64 || n > 2147483647i64 {
                        Err(DecodeError::WrongFieldType)
                    } else {
                        Ok(Some(n as i32))
                    }
                },
            }
        },
    }
}

pub fn get_opt_i64(fs: &Vec<Field>, name: &str) -> (r: Result<Option<i64>, DecodeError>)
    ensures
        match find_val(views_of(fs@), name@) {
            Option::None => r == Ok::<Option<i64>, DecodeError>(Option::None),
            Option::Some(SpecVal::I(n)) => r matches Ok(o) && o matches Some(x) && x as int == n,
            Option::Some(SpecVal::S(_)) => r == Err::<Option<i64>, DecodeError>(
                DecodeError::WrongFieldType,
            ),
        },
{
    match find_field(fs, name) {
        None => Ok(None),
        Some(j) => {
            proof {
                assert(views_of(fs@)[j as int] == fs@[j as int]@);
            }
            match &fs[j].value {
                FieldValue::Text(_) => Err(DecodeError::WrongFieldType),
                FieldValue::Int(n) => Ok(Some(*n)),
            }
        },
    }
}

// ---------------------------------------------------------------------------
// writing one field into a field list being built
// ---------------------------------------------------------------------------

pub fn push_opt_text(out: &mut Vec<Field>, name: &str, o: &Option<String>)
    ensures
        views_of(final(out)@) == views_of(old(out)@) + opt_s(name@, *o),
{
    match o {
        Some(s) => {
            out.push(
                Field { name: str_to_chars(name), value: FieldValue::Text(str_to_chars(s.as_str())) },
            );
            proof {
                assert(views_of(out@) =~= views_of(old(out)@) + opt_s(name@, *o));
            }
        },
        None => {
            proof {
                assert(views_of(out@) =~= views_of(old(out)@) + opt_s(name@, *o));
            }
        },
    }
}

pub fn push_req_text(out: &mut Vec<Field>, name: &str, s: &String)
    ensures
        views_of(final(out)@) == views_of(old(out)@) + req_s(name@, *s),
{
    out.push(Field { name: str_to_chars(name), value: FieldValue::Text(str_to_chars(s.as_str())) });
    proof {
        assert(views_of(out@) =~= views_of(old(out)@) + req_s(name@, *s));
    }
}

pub fn push_opt_i32(out: &mut Vec<Field>, name: &str, o: &Option<i32>)
    ensures
        views_of(final(out)@) == views_of(old(out)@) + opt_i32(name@, *o),
{
    match o {
        Some(n) => {
            out.push(Field { name: str_to_chars(name), value: FieldValue::Int(*n as i64) });
            proof {
                assert(views_of(out@) =~= views_of(old(out)@) + opt_i32(name@, *o));
            }
        },
        None => {
            proof {
                assert(views_of(out@) =~= views_of(old(out)@) + opt_i32(name@, *o));
            }
        },
    }
}

pub fn push_opt_i64(out: &mut Vec<Field>, name: &str, o: &Option<i64>)
    ensures
        views_of(final(out)@) == views_of(old(out)@) + opt_i64(name@, *o),
{
    match o {
        Some(n) => {
            out.push(Field { name: str_to_chars(name), value: FieldValue::Int(*n) });
            proof {
                assert(views_of(out@) =~= views_of(old(out)@) + opt_i64(name@, *o));
            }
        },
        None => {
            proof {
                assert(views_of(out@) =~= views_of(old(out)@) + opt_i64(name@, *o));
            }
        },
    }
}


pub proof fn lemma_find_single_s(name: Seq<char>, o: Option<String>, n: Seq<char>)
    ensures
        find_val(opt_s(name, o), n) == if name == n {
            omap_s(o)
        } else {
            Option::<SpecVal>::None
        },
{
    reveal_with_fuel(find_val, 3);
    match o {
        Option::Some(s) => {
            let fs = opt_s(name, o);
            assert(fs.len() == 1 && fs[0] == (name, SpecVal::S(s@)));
            assert(fs.skip(1).len() == 0);
        },
        Option::None => {},
    }
}

pub proof fn lemma_find_single_i32(name: Seq<char>, o: Option<i32>, n: Seq<char>)
    ensures
        find_val(opt_i32(name, o), n) == if name == n {
            omap_i32(o)
        } else {
            Option::<SpecVal>::None
        },
{
    reveal_with_fuel(find_val, 3);
    match o {
        Option::Some(x) => {
            let fs = opt_i32(name, o);
            assert(fs.len() == 1 && fs[0] == (name, SpecVal::I(x as int)));
            assert(fs.skip(1).len() == 0);
        },
        Option::None => {},
    }
}

pub proof fn lemma_find_single_i64(name: Seq<char>, o: Option<i64>, n: Seq<char>)
    ensures
        find_val(opt_i64(name, o), n) == if name == n {
            omap_i64(o)
        } else {
            Option::<SpecVal>::None
        },
{
    reveal_with_fuel(find_val, 3);
    match o {
        Option::Some(x) => {
            let fs = opt_i64(name, o);
            assert(fs.len() == 1 && fs[0] == (name, SpecVal::I(x as int)));
            assert(fs.skip(1).len() == 0);
        },
        Option::None => {},
    }
}

pub proof fn lemma_find_single_req(name: Seq<char>, s: String, n: Seq<char>)
    ensures
        find_val(req_s(name, s), n) == if name == n {
            Option::Some(SpecVal::S(s@))
        } else {
            Option::<SpecVal>::None
        },
{
    reveal_with_fuel(find_val, 3);
    let fs = req_s(name, s);
    assert(fs.len() == 1 && fs[0] == (name, SpecVal::S(s@)));
    assert(fs.skip(1).len() == 0);
}

pub proof fn lemma_wf_single_s(name: Seq<char>, o: Option<String>)
    requires
        str_wf(name),
        ostr_wf(o),
    ensures
        fields_wf(opt_s(name, o)),
{
    match o {
        Option::Some(s) => {
            assert(pair_wf(opt_s(name, o)[0]));
        },
        Option::None => {},
    }
}

pub proof fn lemma_wf_single_i32(name: Seq<char>, o: Option<i32>)
    requires
        str_wf(name),
    ensures
        fields_wf(opt_i32(name, o)),
{
    match o {
        Option::Some(x) => {
            assert(pair_wf(opt_i32(name, o)[0]));
        },
        Option::None => {},
    }
}

pub proof fn lemma_wf_single_i64(name: Seq<char>, o: Option<i64>)
    requires
        str_wf(name),
    ensures
        fields_wf(opt_i64(name, o)),
{
    match o {
        Option::Some(x) => {
            assert(pair_wf(opt_i64(name, o)[0]));
        },
        Option::None => {},
    }
}

pub proof fn lemma_wf_single_req(name: Seq<char>, s: String)
    requires
        str_wf(name),
        str_wf(s@),
    ensures
        fields_wf(req_s(name, s)),
{
    assert(pair_wf(req_s(name, s)[0]));
}


#[derive(Debug, Clone, PartialEq)]
pub struct FaceInner {
    pub id: String,
}

#[derive(Debug, Clone, PartialEq)]
pub struct Face {
    pub typ: CQCodeType,
    pub data: FaceInner,
}

/// The ordered wire members of a `FaceInner` payload; absent optional
/// fields contribute nothing.
pub open spec fn face_fields(d: FaceInner) -> Seq<(Seq<char>, SpecVal)> {
    req_s("id"@, d.id)
}

pub open spec fn face_wf(d: FaceInner) -> bool {
    str_wf(d.id@)
}

/// The field contents of a `FaceInner`, field for field.
pub open spec fn face_model(d: FaceInner) -> Seq<char> {
    d.id@
}

/// Payloads with the same field contents have the same wire members.
pub proof fn lemma_face_fields_model(a: FaceInner, b: FaceInner)
    requires
        face_model(a) == face_model(b),
    ensures
        face_fields(a) == face_fields(b),
{
    assert(req_s("id"@, a.id) =~= req_s("id"@, b.id));
    assert(face_fields(a) =~= face_fields(b));
}

#[verifier::rlimit(100)]
pub proof fn lemma_face_fields(d: FaceInner)
    ensures
        face_wf(d) ==> fields_wf(face_fields(d)),
        find_val(face_fields(d), "id"@) == Option::Some(SpecVal::S(d.id@)),
{
    lemma_names();
    if face_wf(d) {
        lemma_wf_single_req("id"@, d.id);
    }
    lemma_find_single_req("id"@, d.id, "id"@);
}

/// Reads a `FaceInner` out of a decoded member list; the list must carry
/// exactly the payload's members, in their canonical order.
#[verifier::rlimit(100)]
pub fn face_from_fields(fs: &Vec<Field>) -> (r: Result<FaceInner, DecodeError>)
    ensures
        forall|d: FaceInner|
            views_of(fs@) == #[trigger] face_fields(d) ==> (r matches Ok(w) && face_model(w)
                == face_model(d)),
        r matches Ok(w) ==> views_of(fs@) == face_fields(w),
        r matches Ok(w) ==> (fields_wf(views_of(fs@)) ==> face_wf(w)),
{
    let id = match get_req_text(fs, "id") {
        Err(e) => {
            proof {
                assert forall|d: FaceInner| views_of(fs@) == #[trigger] face_fields(d) implies false by {
                    lemma_face_fields(d);
                }
            }
            return Err(e);
        },
        Ok(x) => x,
    };
    let w = FaceInner { id };
    let expect = face_to_fields(&w);
    if !eq_field_lists(fs, &expect) {
        proof {
            assert forall|d: FaceInner| views_of(fs@) == #[trigger] face_fields(d) implies false by {
                lemma_face_fields(d);
                assert(face_model(w) == face_model(d));
                lemma_face_fields_model(w, d);
            }
        }
        return Err(DecodeError::Malformed);
    }
    proof {
        assert forall|d: FaceInner| views_of(fs@) == #[trigger] face_fields(d) implies face_model(w)
            == face_model(d) by {
            lemma_face_fields(d);
        }
        if fields_wf(views_of(fs@)) {
            lemma_find_wf(views_of(fs@), "id"@);
        }
    }
    Ok(w)
}

pub fn face_to_fields(d: &FaceInner) -> (r: Vec<Field>)
    ensures
        views_of(r@) == face_fields(*d),
{
    let mut out: Vec<Field> = Vec::new();
    proof {
        assert(views_of(out@) =~= Seq::<(Seq<char>, SpecVal)>::empty());
    }
    push_req_text(&mut out, "id", &d.id);
    proof {
        assert(views_of(out@) =~= face_fields(*d));
    }
    out
}

impl CQCode for Face {
    open spec fn fixed_kind() -> CQCodeType {
        CQCodeType::Face
    }

    open spec fn wf_spec(&self) -> bool {
        self.typ == CQCodeType::Face && face_wf(self.data)
    }

    open spec fn wire_spec(&self) -> Seq<char> {
        spec_message(tag_chars(CQCodeType::Face), face_fields(self.data))
    }

    open spec fn same_payload(&self, other: &Self) -> bool {
        self.typ == other.typ && face_model(self.data) == face_model(other.data)
    }

    fn cq_code(&self) -> (k: CQCodeType) {
        CQCodeType::Face
    }

    fn from_raw_message(s: &str) -> (r: Result<Self, DecodeError>) {
        let (kind, fields) = match decode_wire(s) {
            Err(e) => {
                proof {
                    assert forall|v: Face| v.wf_spec() && s@ == #[trigger] v.wire_spec() implies false by {
                        lemma_face_fields(v.data);
                    }
                    assert forall|k: CQCodeType, fs: Seq<(Seq<char>, SpecVal)>|
                        fields_wf(fs) && s@ == #[trigger] spec_message(tag_chars(k), fs) && k
                            != Face::fixed_kind() implies false by {}
                }
                return Err(e);
            },
            Ok(p) => p,
        };
        if kind != CQCodeType::Face {
            proof {
                assert forall|v: Face| v.wf_spec() && s@ == #[trigger] v.wire_spec() implies false by {
                    lemma_face_fields(v.data);
                }
            }
            return Err(DecodeError::MismatchedKindTag);
        }
        match face_from_fields(&fields) {
            Err(e) => {
                proof {
                    assert forall|v: Face| v.wf_spec() && s@ == #[trigger] v.wire_spec() implies false by {
                        lemma_face_fields(v.data);
                    }
                    assert forall|k: CQCodeType, fs: Seq<(Seq<char>, SpecVal)>|
                        fields_wf(fs) && s@ == #[trigger] spec_message(tag_chars(k), fs) && k
                            != Face::fixed_kind() implies false by {}
                }
                Err(e)
            },
            Ok(data) => {
                let res = Face { typ: kind, data };
                proof {
                    assert forall|v: Face| v.wf_spec() && s@ == #[trigger] v.wire_spec() implies res.same_payload(&v) by {
                        lemma_face_fields(v.data);
                    }
                    assert forall|k: CQCodeType, fs: Seq<(Seq<char>, SpecVal)>|
                        fields_wf(fs) && s@ == #[trigger] spec_message(tag_chars(k), fs) && k
                            != Face::fixed_kind() implies false by {}
                    assert(ws_interleave(s@, res.wire_spec())) by {
                        assert(views_of(fields@) == face_fields(data));
                    }
                }
                Ok(res)
            },
        }
    }

    fn to_raw_message(&self) -> (r: RawMessage) {
        let fields = face_to_fields(&self.data);
        encode_wire_kind(CQCodeType::Face, &fields)
    }
}

#[derive(Debug, Clone, PartialEq)]
pub struct VoiceInner {
    pub file: Option<String>,
    pub magic: Option<i32>,
    pub url: Option<String>,
    pub cache: Option<String>,
    pub proxy: Option<i32>,
    pub timeout: Option<i32>,
}

#[derive(Debug, Clone, PartialEq)]
pub struct Voice {
    pub typ: CQCodeType,
    pub data: VoiceInner,
}

/// The ordered wire members of a `VoiceInner` payload; absent optional
/// fields contribute nothing.
pub open spec fn voice_fields(d: VoiceInner) -> Seq<(Seq<char>, SpecVal)> {
    opt_s("file"@, d.file) + opt_i32("magic"@, d.magic) + opt_s("url"@, d.url) + opt_s("cache"@, d.cache) + opt_i32("proxy"@, d.proxy) + opt_i32("timeout"@, d.timeout)
}

pub open spec fn voice_wf(d: VoiceInner) -> bool {
    ostr_wf(d.file) && ostr_wf(d.url) && ostr_wf(d.cache)
}

/// The field contents of a `VoiceInner`, field for field.
pub open spec fn voice_model(d: VoiceInner) -> (Option<Seq<char>>, Option<int>, Option<Seq<char>>, Option<Seq<char>>, Option<int>, Option<int>) {
    (oview_s(d.file), oview_i32(d.magic), oview_s(d.url), oview_s(d.cache), oview_i32(d.proxy), oview_i32(d.timeout))
}

/// Payloads with the same field contents have the same wire members.
pub proof fn lemma_voice_fields_model(a: VoiceInner, b: VoiceInner)
    requires
        voice_model(a) == voice_model(b),
    ensures
        voice_fields(a) == voice_fields(b),
{
    assert(opt_s("file"@, a.file) =~= opt_s("file"@, b.file));
    assert(opt_i32("magic"@, a.magic) =~= opt_i32("magic"@, b.magic));
    assert(opt_s("url"@, a.url) =~= opt_s("url"@, b.url));
    assert(opt_s("cache"@, a.cache) =~= opt_s("cache"@, b.cache));
    assert(opt_i32("proxy"@, a.proxy) =~= opt_i32("proxy"@, b.proxy));
    assert(opt_i32("timeout"@, a.timeout) =~= opt_i32("timeout"@, b.timeout));
    assert(voice_fields(a) =~= voice_fields(b));
}

#[verifier::rlimit(100)]
pub proof fn lemma_voice_fields(d: VoiceInner)
    ensures
        voice_wf(d) ==> fields_wf(voice_fields(d)),
        find_val(voice_fields(d), "file"@) == omap_s(d.file),
        find_val(voice_fields(d), "magic"@) == omap_i32(d.magic),
        find_val(voice_fields(d), "url"@) == omap_s(d.url),
        find_val(voice_fields(d), "cache"@) == omap_s(d.cache),
        find_val(voice_fields(d), "proxy"@) == omap_i32(d.proxy),
        find_val(voice_fields(d), "timeout"@) == omap_i32(d.timeout),
{
    lemma_names();
    if voice_wf(d) {
        lemma_wf_single_s("file"@, d.file);
        lemma_wf_single_i32("magic"@, d.magic);
        lemma_wf_single_s("url"@, d.url);
        lemma_wf_single_s("cache"@, d.cache);
        lemma_wf_single_i32("proxy"@, d.proxy);
        lemma_wf_single_i32("timeout"@, d.timeout);
        lemma_wf_concat(opt_s("file"@, d.file), opt_i32("magic"@, d.magic));
        lemma_wf_concat(opt_s("file"@, d.file) + opt_i32("magic"@, d.magic), opt_s("url"@, d.url));
        lemma_wf_concat(opt_s("file"@, d.file) + opt_i32("magic"@, d.magic) + opt_s("url"@, d.url), opt_s("cache"@, d.cache));
        lemma_wf_concat(opt_s("file"@, d.file) + opt_i32("magic"@, d.magic) + opt_s("url"@, d.url) + opt_s("cache"@, d.cache), opt_i32("proxy"@, d.proxy));
        lemma_wf_concat(opt_s("file"@, d.file) + opt_i32("magic"@, d.magic) + opt_s("url"@, d.url) + opt_s("cache"@, d.cache) + opt_i32("proxy"@, d.proxy), opt_i32("timeout"@, d.timeout));
    }
    lemma_find_concat2(opt_s("file"@, d.file) + opt_i32("magic"@, d.magic) + opt_s("url"@, d.url) + opt_s("cache"@, d.cache) + opt_i32("proxy"@, d.proxy), opt_i32("timeout"@, d.timeout), "file"@);
    lemma_find_concat2(opt_s("file"@, d.file) + opt_i32("magic"@, d.magic) + opt_s("url"@, d.url) + opt_s("cache"@, d.cache), opt_i32("proxy"@, d.proxy), "file"@);
    lemma_find_concat2(opt_s("file"@, d.file) + opt_i32("magic"@, d.magic) + opt_s("url"@, d.url), opt_s("cache"@, d.cache), "file"@);
    lemma_find_concat2(opt_s("file"@, d.file) + opt_i32("magic"@, d.magic), opt_s("url"@, d.url), "file"@);
    lemma_find_concat2(opt_s("file"@, d.file), opt_i32("magic"@, d.magic), "file"@);
    lemma_find_concat2(opt_s("file"@, d.file) + opt_i32("magic"@, d.magic) + opt_s("url"@, d.url) + opt_s("cache"@, d.cache) + opt_i32("proxy"@, d.proxy), opt_i32("timeout"@, d.timeout), "magic"@);
    lemma_find_concat2(opt_s("file"@, d.file) + opt_i32("magic"@, d.magic) + opt_s("url"@, d.url) + opt_s("cache"@, d.cache), opt_i32("proxy"@, d.proxy), "magic"@);
    lemma_find_concat2(opt_s("file"@, d.file) + opt_i32("magic"@, d.magic) + opt_s("url"@, d.url), opt_s("cache"@, d.cache), "magic"@);
    lemma_find_concat2(opt_s("file"@, d.file) + opt_i32("magic"@, d.magic), opt_s("url"@, d.url), "magic"@);
    lemma_find_concat2(opt_s("file"@, d.file), opt_i32("magic"@, d.magic), "magic"@);
    lemma_find_concat2(opt_s("file"@, d.file) + opt_i32("magic"@, d.magic) + opt_s("url"@, d.url) + opt_s("cache"@, d.cache) + opt_i32("proxy"@, d.proxy), opt_i32("timeout"@, d.timeout), "url"@);
    lemma_find_concat2(opt_s("file"@, d.file) + opt_i32("magic"@, d.magic) + opt_s("url"@, d.url) + opt_s("cache"@, d.cache), opt_i32("proxy"@, d.proxy), "url"@);
    lemma_find_concat2(opt_s("file"@, d.file) + opt_i32("magic"@, d.magic) + opt_s("url"@, d.url), opt_s("cache"@, d.cache), "url"@);
    lemma_find_concat2(opt_s("file"@, d.file) + opt_i32("magic"@, d.magic), opt_s("url"@, d.url), "url"@);
    lemma_find_concat2(opt_s("file"@, d.file), opt_i32("magic"@, d.magic), "url"@);
    lemma_find_concat2(opt_s("file"@, d.file) + opt_i32("magic"@, d.magic) + opt_s("url"@, d.url) + opt_s("cache"@, d.cache) + opt_i32("proxy"@, d.proxy), opt_i32("timeout"@, d.timeout), "cache"@);
    lemma_find_concat2(opt_s("file"@, d.file) + opt_i32("magic"@, d.magic) + opt_s("url"@, d.url) + opt_s("cache"@, d.cache), opt_i32("proxy"@, d.proxy), "cache"@);
    lemma_find_concat2(opt_s("file"@, d.file) + opt_i32("magic"@, d.magic) + opt_s("url"@, d.url), opt_s("cache"@, d.cache), "cache"@);
    lemma_find_concat2(opt_s("file"@, d.file) + opt_i32("magic"@, d.magic), opt_s("url"@, d.url), "cache"@);
    lemma_find_concat2(opt_s("file"@, d.file), opt_i32("magic"@, d.magic), "cache"@);
    lemma_find_concat2(opt_s("file"@, d.file) + opt_i32("magic"@, d.magic) + opt_s("url"@, d.url) + opt_s("cache"@, d.cache) + opt_i32("proxy"@, d.proxy), opt_i32("timeout"@, d.timeout), "proxy"@);
    lemma_find_concat2(opt_s("file"@, d.file) + opt_i32("magic"@, d.magic) + opt_s("url"@, d.url) + opt_s("cache"@, d.cache), opt_i32("proxy"@, d.proxy), "proxy"@);
    lemma_find_concat2(opt_s("file"@, d.file) + opt_i32("magic"@, d.magic) + opt_s("url"@, d.url), opt_s("cache"@, d.cache), "proxy"@);
    lemma_find_concat2(opt_s("file"@, d.file) + opt_i32("magic"@, d.magic), opt_s("url"@, d.url), "proxy"@);
    lemma_find_concat2(opt_s("file"@, d.file), opt_i32("magic"@, d.magic), "proxy"@);
    lemma_find_concat2(opt_s("file"@, d.file) + opt_i32("magic"@, d.magic) + opt_s("url"@, d.url) + opt_s("cache"@, d.cache) + opt_i32("proxy"@, d.proxy), opt_i32("timeout"@, d.timeout), "timeout"@);
    lemma_find_concat2(opt_s("file"@, d.file) + opt_i32("magic"@, d.magic) + opt_s("url"@, d.url) + opt_s("cache"@, d.cache), opt_i32("proxy"@, d.proxy), "timeout"@);
    lemma_find_concat2(opt_s("file"@, d.file) + opt_i32("magic"@, d.magic) + opt_s("url"@, d.url), opt_s("cache"@, d.cache), "timeout"@);
    lemma_find_concat2(opt_s("file"@, d.file) + opt_i32("magic"@, d.magic), opt_s("url"@, d.url), "timeout"@);
    lemma_find_concat2(opt_s("file"@, d.file), opt_i32("magic"@, d.magic), "timeout"@);
    lemma_find_single_s("file"@, d.file, "file"@);
    lemma_find_single_s("file"@, d.file, "magic"@);
    lemma_find_single_s("file"@, d.file, "url"@);
    lemma_find_single_s("file"@, d.file, "cache"@);
    lemma_find_single_s("file"@, d.file, "proxy"@);
    lemma_find_single_s("file"@, d.file, "timeout"@);
    lemma_find_single_i32("magic"@, d.magic, "file"@);
    lemma_find_single_i32("magic"@, d.magic, "magic"@);
    lemma_find_single_i32("magic"@, d.magic, "url"@);
    lemma_find_single_i32("magic"@, d.magic, "cache"@);
    lemma_find_single_i32("magic"@, d.magic, "proxy"@);
    lemma_find_single_i32("magic"@, d.magic, "timeout"@);
    lemma_find_single_s("url"@, d.url, "file"@);
    lemma_find_single_s("url"@, d.url, "magic"@);
    lemma_find_single_s("url"@, d.url, "url"@);
    lemma_find_single_s("url"@, d.url, "cache"@);
    lemma_find_single_s("url"@, d.url, "proxy"@);
    lemma_find_single_s("url"@, d.url, "timeout"@);
    lemma_find_single_s("cache"@, d.cache, "file"@);
    lemma_find_single_s("cache"@, d.cache, "magic"@);
    lemma_find_single_s("cache"@, d.cache, "url"@);
    lemma_find_single_s("cache"@, d.cache, "cache"@);
    lemma_find_single_s("cache"@, d.cache, "proxy"@);
    lemma_find_single_s("cache"@, d.cache, "timeout"@);
    lemma_find_single_i32("proxy"@, d.proxy, "file"@);
    lemma_find_single_i32("proxy"@, d.proxy, "magic"@);
    lemma_find_single_i32("proxy"@, d.proxy, "url"@);
    lemma_find_single_i32("proxy"@, d.proxy, "cache"@);
    lemma_find_single_i32("proxy"@, d.proxy, "proxy"@);
    lemma_find_single_i32("proxy"@, d.proxy, "timeout"@);
    lemma_find_single_i32("timeout"@, d.timeout, "file"@);
    lemma_find_single_i32("timeout"@, d.timeout, "magic"@);
    lemma_find_single_i32("timeout"@, d.timeout, "url"@);
    lemma_find_single_i32("timeout"@, d.timeout, "cache"@);
    lemma_find_single_i32("timeout"@, d.timeout, "proxy"@);
    lemma_find_single_i32("timeout"@, d.timeout, "timeout"@);
}

/// Reads a `VoiceInner` out of a decoded member list; the list must carry
/// exactly the payload's members, in their canonical order.
#[verifier::rlimit(100)]
pub fn voice_from_fields(fs: &Vec<Field>) -> (r: Result<VoiceInner, DecodeError>)
    ensures
        forall|d: VoiceInner|
            views_of(fs@) == #[trigger] voice_fields(d) ==> (r matches Ok(w) && voice_model(w)
                == voice_model(d)),
        r matches Ok(w) ==> views_of(fs@) == voice_fields(w),
        r matches Ok(w) ==> (fields_wf(views_of(fs@)) ==> voice_wf(w)),
{
    let file = match get_opt_text(fs, "file") {
        Err(e) => {
            proof {
                assert forall|d: VoiceInner| views_of(fs@) == #[trigger] voice_fields(d) implies false by {
                    lemma_voice_fields(d);
                }
            }
            return Err(e);
        },
        Ok(x) => x,
    };
    let magic = match get_opt_i32(fs, "magic") {
        Err(e) => {
            proof {
                assert forall|d: VoiceInner| views_of(fs@) == #[trigger] voice_fields(d) implies false by {
                    lemma_voice_fields(d);
                }
            }
            return Err(e);
        },
        Ok(x) => x,
    };
    let url = match get_opt_text(fs, "url") {
        Err(e) => {
            proof {
                assert forall|d: VoiceInner| views_of(fs@) == #[trigger] voice_fields(d) implies false by {
                    lemma_voice_fields(d);
                }
            }
            return Err(e);
        },
        Ok(x) => x,
    };
    let cache = match get_opt_text(fs, "cache") {
        Err(e) => {
            proof {
                assert forall|d: VoiceInner| views_of(fs@) == #[trigger] voice_fields(d) implies false by {
                    lemma_voice_fields(d);
                }
            }
            return Err(e);
        },
        Ok(x) => x,
    };
    let proxy = match get_opt_i32(fs, "proxy") {
        Err(e) => {
            proof {
                assert forall|d: VoiceInner| views_of(fs@) == #[trigger] voice_fields(d) implies false by {
                    lemma_voice_fields(d);
                }
            }
            return Err(e);
        },
        Ok(x) => x,
    };
    let timeout = match get_opt_i32(fs, "timeout") {
        Err(e) => {
            proof {
                assert forall|d: VoiceInner| views_of(fs@) == #[trigger] voice_fields(d) implies false by {
                    lemma_voice_fields(d);
                }
            }
            return Err(e);
        },
        Ok(x) => x,
    };
    let w = VoiceInner { file, magic, url, cache, proxy, timeout };
    let expect = voice_to_fields(&w);
    if !eq_field_lists(fs, &expect) {
        proof {
            assert forall|d: VoiceInner| views_of(fs@) == #[trigger] voice_fields(d) implies false by {
                lemma_voice_fields(d);
                assert(voice_model(w) == voice_model(d));
                lemma_voice_fields_model(w, d);
            }
        }
        return Err(DecodeError::Malformed);
    }
    proof {
        assert forall|d: VoiceInner| views_of(fs@) == #[trigger] voice_fields(d) implies voice_model(w)
            == voice_model(d) by {
            lemma_voice_fields(d);
        }
        if fields_wf(views_of(fs@)) {
            lemma_find_wf(views_of(fs@), "file"@);
            lemma_find_wf(views_of(fs@), "url"@);
            lemma_find_wf(views_of(fs@), "cache"@);
        }
    }
    Ok(w)
}

pub fn voice_to_fields(d: &VoiceInner) -> (r: Vec<Field>)
    ensures
        views_of(r@) == voice_fields(*d),
{
    let mut out: Vec<Field> = Vec::new();
    proof {
        assert(views_of(out@) =~= Seq::<(Seq<char>, SpecVal)>::empty());
    }
    push_opt_text(&mut out, "file", &d.file);
    push_opt_i32(&mut out, "magic", &d.magic);
    push_opt_text(&mut out, "url", &d.url);
    push_opt_text(&mut out, "cache", &d.cache);
    push_opt_i32(&mut out, "proxy", &d.proxy);
    push_opt_i32(&mut out, "timeout", &d.timeout);
    proof {
        assert(views_of(out@) =~= voice_fields(*d));
    }
    out
}

impl CQCode for Voice {
    open spec fn fixed_kind() -> CQCodeType {
        CQCodeType::Record
    }

    open spec fn wf_spec(&self) -> bool {
        self.typ == CQCodeType::Record && voice_wf(self.data)
    }

    open spec fn wire_spec(&self) -> Seq<char> {
        spec_message(tag_chars(CQCodeType::Record), voice_fields(self.data))
    }

    open spec fn same_payload(&self, other: &Self) -> bool {
        self.typ == other.typ && voice_model(self.data) == voice_model(other.data)
    }

    fn cq_code(&self) -> (k: CQCodeType) {
        CQCodeType::Record
    }

    fn from_raw_message(s: &str) -> (r: Result<Self, DecodeError>) {
        let (kind, fields) = match decode_wire(s) {
            Err(e) => {
                proof {
                    assert forall|v: Voice| v.wf_spec() && s@ == #[trigger] v.wire_spec() implies false by {
                        lemma_voice_fields(v.data);
                    }
                    assert forall|k: CQCodeType, fs: Seq<(Seq<char>, SpecVal)>|
                        fields_wf(fs) && s@ == #[trigger] spec_message(tag_chars(k), fs) && k
                            != Voice::fixed_kind() implies false by {}
                }
                return Err(e);
            },
            Ok(p) => p,
        };
        if kind != CQCodeType::Record {
            proof {
                assert forall|v: Voice| v.wf_spec() && s@ == #[trigger] v.wire_spec() implies false by {
                    lemma_voice_fields(v.data);
                }
            }
            return Err(DecodeError::MismatchedKindTag);
        }
        match voice_from_fields(&fields) {
            Err(e) => {
                proof {
                    assert forall|v: Voice| v.wf_spec() && s@ == #[trigger] v.wire_spec() implies false by {
                        lemma_voice_fields(v.data);
                    }
                    assert forall|k: CQCodeType, fs: Seq<(Seq<char>, SpecVal)>|
                        fields_wf(fs) && s@ == #[trigger] spec_message(tag_chars(k), fs) && k
                            != Voice::fixed_kind() implies false by {}
                }
                Err(e)
            },
            Ok(data) => {
                let res = Voice { typ: kind, data };
                proof {
                    assert forall|v: Voice| v.wf_spec() && s@ == #[trigger] v.wire_spec() implies res.same_payload(&v) by {
                        lemma_voice_fields(v.data);
                    }
                    assert forall|k: CQCodeType, fs: Seq<(Seq<char>, SpecVal)>|
                        fields_wf(fs) && s@ == #[trigger] spec_message(tag_chars(k), fs) && k
                            != Voice::fixed_kind() implies false by {}
                    assert(ws_interleave(s@, res.wire_spec())) by {
                        assert(views_of(fields@) == voice_fields(data));
                    }
                }
                Ok(res)
            },
        }
    }

    fn to_raw_message(&self) -> (r: RawMessage) {
        let fields = voice_to_fields(&self.data);
        encode_wire_kind(CQCodeType::Record, &fields)
    }
}

#[derive(Debug, Clone, PartialEq)]
pub struct VideoInner {
    pub file: Option<String>,
    pub cover: Option<String>,
    pub c: Option<i32>,
}

#[derive(Debug, Clone, PartialEq)]
pub struct Video {
    pub typ: CQCodeType,
    pub data: VideoInner,
}

/// The ordered wire members of a `VideoInner` payload; absent optional
/// fields contribute nothing.
pub open spec fn video_fields(d: VideoInner) -> Seq<(Seq<char>, SpecVal)> {
    opt_s("file"@, d.file) + opt_s("cover"@, d.cover) + opt_i32("c"@, d.c)
}

pub open spec fn video_wf(d: VideoInner) -> bool {
    ostr_wf(d.file) && ostr_wf(d.cover)
}

/// The field contents of a `VideoInner`, field for field.
pub open spec fn video_model(d: VideoInner) -> (Option<Seq<char>>, Option<Seq<char>>, Option<int>) {
    (oview_s(d.file), oview_s(d.cover), oview_i32(d.c))
}

/// Payloads with the same field contents have the same wire members.
pub proof fn lemma_video_fields_model(a: VideoInner, b: VideoInner)
    requires
        video_model(a) == video_model(b),
    ensures
        video_fields(a) == video_fields(b),
{
    assert(opt_s("file"@, a.file) =~= opt_s("file"@, b.file));
    assert(opt_s("cover"@, a.cover) =~= opt_s("cover"@, b.cover));
    assert(opt_i32("c"@, a.c) =~= opt_i32("c"@, b.c));
    assert(video_fields(a) =~= video_fields(b));
}

#[verifier::rlimit(100)]
pub proof fn lemma_video_fields(d: VideoInner)
    ensures
        video_wf(d) ==> fields_wf(video_fields(d)),
        find_val(video_fields(d), "file"@) == omap_s(d.file),
        find_val(video_fields(d), "cover"@) == omap_s(d.cover),
        find_val(video_fields(d), "c"@) == omap_i32(d.c),
{
    lemma_names();
    if video_wf(d) {
        lemma_wf_single_s("file"@, d.file);
        lemma_wf_single_s("cover"@, d.cover);
        lemma_wf_single_i32("c"@, d.c);
        lemma_wf_concat(opt_s("file"@, d.file), opt_s("cover"@, d.cover));
        lemma_wf_concat(opt_s("file"@, d.file) + opt_s("cover"@, d.cover), opt_i32("c"@, d.c));
    }
    lemma_find_concat2(opt_s("file"@, d.file) + opt_s("cover"@, d.cover), opt_i32("c"@, d.c), "file"@);
    lemma_find_concat2(opt_s("file"@, d.file), opt_s("cover"@, d.cover), "file"@);
    lemma_find_concat2(opt_s("file"@, d.file) + opt_s("cover"@, d.cover), opt_i32("c"@, d.c), "cover"@);
    lemma_find_concat2(opt_s("file"@, d.file), opt_s("cover"@, d.cover), "cover"@);
    lemma_find_concat2(opt_s("file"@, d.file) + opt_s("cover"@, d.cover), opt_i32("c"@, d.c), "c"@);
    lemma_find_concat2(opt_s("file"@, d.file), opt_s("cover"@, d.cover), "c"@);
    lemma_find_single_s("file"@, d.file, "file"@);
    lemma_find_single_s("file"@, d.file, "cover"@);
    lemma_find_single_s("file"@, d.file, "c"@);
    lemma_find_single_s("cover"@, d.cover, "file"@);
    lemma_find_single_s("cover"@, d.cover, "cover"@);
    lemma_find_single_s("cover"@, d.cover, "c"@);
    lemma_find_single_i32("c"@, d.c, "file"@);
    lemma_find_single_i32("c"@, d.c, "cover"@);
    lemma_find_single_i32("c"@, d.c, "c"@);
}

/// Reads a `VideoInner` out of a decoded member list; the list must carry
/// exactly the payload's members, in their canonical order.
#[verifier::rlimit(100)]
pub fn video_from_fields(fs: &Vec<Field>) -> (r: Result<VideoInner, DecodeError>)
    ensures
        forall|d: VideoInner|
            views_of(fs@) == #[trigger] video_fields(d) ==> (r matches Ok(w) && video_model(w)
                == video_model(d)),
        r matches Ok(w) ==> views_of(fs@) == video_fields(w),
        r matches Ok(w) ==> (fields_wf(views_of(fs@)) ==> video_wf(w)),
{
    let file = match get_opt_text(fs, "file") {
        Err(e) => {
            proof {
                assert forall|d: VideoInner| views_of(fs@) == #[trigger] video_fields(d) implies false by {
                    lemma_video_fields(d);
                }
            }
            return Err(e);
        },
        Ok(x) => x,
    };
    let cover = match get_opt_text(fs, "cover") {
        Err(e) => {
            proof {
                assert forall|d: VideoInner| views_of(fs@) == #[trigger] video_fields(d) implies false by {
                    lemma_video_fields(d);
                }
            }
            return Err(e);
        },
        Ok(x) => x,
    };
    let c = match get_opt_i32(fs, "c") {
        Err(e) => {
            proof {
                assert forall|d: VideoInner| views_of(fs@) == #[trigger] video_fields(d) implies false by {
                    lemma_video_fields(d);
                }
            }
            return Err(e);
        },
        Ok(x) => x,
    };
    let w = VideoInner { file, cover, c };
    let expect = video_to_fields(&w);
    if !eq_field_lists(fs, &expect) {
        proof {
            assert forall|d: VideoInner| views_of(fs@) == #[trigger] video_fields(d) implies false by {
                lemma_video_fields(d);
                assert(video_model(w) == video_model(d));
                lemma_video_fields_model(w, d);
            }
        }
        return Err(DecodeError::Malformed);
    }
    proof {
        assert forall|d: VideoInner| views_of(fs@) == #[trigger] video_fields(d) implies video_model(w)
            == video_model(d) by {
            lemma_video_fields(d);
        }
        if fields_wf(views_of(fs@)) {
            lemma_find_wf(views_of(fs@), "file"@);
            lemma_find_wf(views_of(fs@), "cover"@);
        }
    }
    Ok(w)
}

pub fn video_to_fields(d: &VideoInner) -> (r: Vec<Field>)
    ensures
        views_of(r@) == video_fields(*d),
{
    let mut out: Vec<Field> = Vec::new();
    proof {
        assert(views_of(out@) =~= Seq::<(Seq<char>, SpecVal)>::empty());
    }
    push_opt_text(&mut out, "file", &d.file);
    push_opt_text(&mut out, "cover", &d.cover);
    push_opt_i32(&mut out, "c", &d.c);
    proof {
        assert(views_of(out@) =~= video_fields(*d));
    }
    out
}

impl CQCode for Video {
    open spec fn fixed_kind() -> CQCodeType {
        CQCodeType::Video
    }

    open spec fn wf_spec(&self) -> bool {
        self.typ == CQCodeType::Video && video_wf(self.data)
    }

    open spec fn wire_spec(&self) -> Seq<char> {
        spec_message(tag_chars(CQCodeType::Video), video_fields(self.data))
    }

    open spec fn same_payload(&self, other: &Self) -> bool {
        self.typ == other.typ && video_model(self.data) == video_model(other.data)
    }

    fn cq_code(&self) -> (k: CQCodeType) {
        CQCodeType::Video
    }

    fn from_raw_message(s: &str) -> (r: Result<Self, DecodeError>) {
        let (kind, fields) = match decode_wire(s) {
            Err(e) => {
                proof {
                    assert forall|v: Video| v.wf_spec() && s@ == #[trigger] v.wire_spec() implies false by {
                        lemma_video_fields(v.data);
                    }
                    assert forall|k: CQCodeType, fs: Seq<(Seq<char>, SpecVal)>|
                        fields_wf(fs) && s@ == #[trigger] spec_message(tag_chars(k), fs) && k
                            != Video::fixed_kind() implies false by {}
                }
                return Err(e);
            },
            Ok(p) => p,
        };
        if kind != CQCodeType::Video {
            proof {
                assert forall|v: Video| v.wf_spec() && s@ == #[trigger] v.wire_spec() implies false by {
                    lemma_video_fields(v.data);
                }
            }
            return Err(DecodeError::MismatchedKindTag);
        }
        match video_from_fields(&fields) {
            Err(e) => {
                proof {
                    assert forall|v: Video| v.wf_spec() && s@ == #[trigger] v.wire_spec() implies false by {
                        lemma_video_fields(v.data);
                    }
                    assert forall|k: CQCodeType, fs: Seq<(Seq<char>, SpecVal)>|
                        fields_wf(fs) && s@ == #[trigger] spec_message(tag_chars(k), fs) && k
                            != Video::fixed_kind() implies false by {}
                }
                Err(e)
            },
            Ok(data) => {
                let res = Video { typ: kind, data };
                proof {
                    assert forall|v: Video| v.wf_spec() && s@ == #[trigger] v.wire_spec() implies res.same_payload(&v) by {
                        lemma_video_fields(v.data);
                    }
                    assert forall|k: CQCodeType, fs: Seq<(Seq<char>, SpecVal)>|
                        fields_wf(fs) && s@ == #[trigger] spec_message(tag_chars(k), fs) && k
                            != Video::fixed_kind() implies false by {}
                    assert(ws_interleave(s@, res.wire_spec())) by {
                        assert(views_of(fields@) == video_fields(data));
                    }
                }
                Ok(res)
            },
        }
    }

    fn to_raw_message(&self) -> (r: RawMessage) {
        let fields = video_to_fields(&self.data);
        encode_wire_kind(CQCodeType::Video, &fields)
    }
}

#[derive(Debug, Clone, PartialEq)]
pub struct AtInner {
    pub qq: Option<String>,
    pub name: Option<String>,
}

#[derive(Debug, Clone, PartialEq)]
pub struct At {
    pub typ: CQCodeType,
    pub data: AtInner,
}

/// The ordered wire members of a `AtInner` payload; absent optional
/// fields contribute nothing.
pub open spec fn at_fields(d: AtInner) -> Seq<(Seq<char>, SpecVal)> {
    opt_s("qq"@, d.qq) + opt_s("name"@, d.name)
}

pub open spec fn at_wf(d: AtInner) -> bool {
    ostr_wf(d.qq) && ostr_wf(d.name)
}

/// The field contents of a `AtInner`, field for field.
pub open spec fn at_model(d: AtInner) -> (Option<Seq<char>>, Option<Seq<char>>) {
    (oview_s(d.qq), oview_s(d.name))
}

/// Payloads with the same field contents have the same wire members.
pub proof fn lemma_at_fields_model(a: AtInner, b: AtInner)
    requires
        at_model(a) == at_model(b),
    ensures
        at_fields(a) == at_fields(b),
{
    assert(opt_s("qq"@, a.qq) =~= opt_s("qq"@, b.qq));
    assert(opt_s("name"@, a.name) =~= opt_s("name"@, b.name));
    assert(at_fields(a) =~= at_fields(b));
}

#[verifier::rlimit(100)]
pub proof fn lemma_at_fields(d: AtInner)
    ensures
        at_wf(d) ==> fields_wf(at_fields(d)),
        find_val(at_fields(d), "qq"@) == omap_s(d.qq),
        find_val(at_fields(d), "name"@) == omap_s(d.name),
{
    lemma_names();
    if at_wf(d) {
        lemma_wf_single_s("qq"@, d.qq);
        lemma_wf_single_s("name"@, d.name);
        lemma_wf_concat(opt_s("qq"@, d.qq), opt_s("name"@, d.name));
    }
    lemma_find_concat2(opt_s("qq"@, d.qq), opt_s("name"@, d.name), "qq"@);
    lemma_find_concat2(opt_s("qq"@, d.qq), opt_s("name"@, d.name), "name"@);
    lemma_find_single_s("qq"@, d.qq, "qq"@);
    lemma_find_single_s("qq"@, d.qq, "name"@);
    lemma_find_single_s("name"@, d.name, "qq"@);
    lemma_find_single_s("name"@, d.name, "name"@);
}

/// Reads a `AtInner` out of a decoded member list; the list must carry
/// exactly the payload's members, in their canonical order.
#[verifier::rlimit(100)]
pub fn at_from_fields(fs: &Vec<Field>) -> (r: Result<AtInner, DecodeError>)
    ensures
        forall|d: AtInner|
            views_of(fs@) == #[trigger] at_fields(d) ==> (r matches Ok(w) && at_model(w)
                == at_model(d)),
        r matches Ok(w) ==> views_of(fs@) == at_fields(w),
        r matches Ok(w) ==> (fields_wf(views_of(fs@)) ==> at_wf(w)),
{
    let qq = match get_opt_text(fs, "qq") {
        Err(e) => {
            proof {
                assert forall|d: AtInner| views_of(fs@) == #[trigger] at_fields(d) implies false by {
                    lemma_at_fields(d);
                }
            }
            return Err(e);
        },
        Ok(x) => x,
    };
    let name = match get_opt_text(fs, "name") {
        Err(e) => {
            proof {
                assert forall|d: AtInner| views_of(fs@) == #[trigger] at_fields(d) implies false by {
                    lemma_at_fields(d);
                }
            }
            return Err(e);
        },
        Ok(x) => x,
    };
    let w = AtInner { qq, name };
    let expect = at_to_fields(&w);
    if !eq_field_lists(fs, &expect) {
        proof {
            assert forall|d: AtInner| views_of(fs@) == #[trigger] at_fields(d) implies false by {
                lemma_at_fields(d);
                assert(at_model(w) == at_model(d));
                lemma_at_fields_model(w, d);
            }
        }
        return Err(DecodeError::Malformed);
    }
    proof {
        assert forall|d: AtInner| views_of(fs@) == #[trigger] at_fields(d) implies at_model(w)
            == at_model(d) by {
            lemma_at_fields(d);
        }
        if fields_wf(views_of(fs@)) {
            lemma_find_wf(views_of(fs@), "qq"@);
            lemma_find_wf(views_of(fs@), "name"@);
        }
    }
    Ok(w)
}

pub fn at_to_fields(d: &AtInner) -> (r: Vec<Field>)
    ensures
        views_of(r@) == at_fields(*d),
{
    let mut out: Vec<Field> = Vec::new();
    proof {
        assert(views_of(out@) =~= Seq::<(Seq<char>, SpecVal)>::empty());
    }
    push_opt_text(&mut out, "qq", &d.qq);
    push_opt_text(&mut out, "name", &d.name);
    proof {
        assert(views_of(out@) =~= at_fields(*d));
    }
    out
}

impl CQCode for At {
    open spec fn fixed_kind() -> CQCodeType {
        CQCodeType::At
    }

    open spec fn wf_spec(&self) -> bool {
        self.typ == CQCodeType::At && at_wf(self.data)
    }

    open spec fn wire_spec(&self) -> Seq<char> {
        spec_message(tag_chars(CQCodeType::At), at_fields(self.data))
    }

    open spec fn same_payload(&self, other: &Self) -> bool {
        self.typ == other.typ && at_model(self.data) == at_model(other.data)
    }

    fn cq_code(&self) -> (k: CQCodeType) {
        CQCodeType::At
    }

    fn from_raw_message(s: &str) -> (r: Result<Self, DecodeError>) {
        let (kind, fields) = match decode_wire(s) {
            Err(e) => {
                proof {
                    assert forall|v: At| v.wf_spec() && s@ == #[trigger] v.wire_spec() implies false by {
                        lemma_at_fields(v.data);
                    }
                    assert forall|k: CQCodeType, fs: Seq<(Seq<char>, SpecVal)>|
                        fields_wf(fs) && s@ == #[trigger] spec_message(tag_chars(k), fs) && k
                            != At::fixed_kind() implies false by {}
                }
                return Err(e);
            },
            Ok(p) => p,
        };
        if kind != CQCodeType::At {
            proof {
                assert forall|v: At| v.wf_spec() && s@ == #[trigger] v.wire_spec() implies false by {
                    lemma_at_fields(v.data);
                }
            }
            return Err(DecodeError::MismatchedKindTag);
        }
        match at_from_fields(&fields) {
            Err(e) => {
                proof {
                    assert forall|v: At| v.wf_spec() && s@ == #[trigger] v.wire_spec() implies false by {
                        lemma_at_fields(v.data);
                    }
                    assert forall|k: CQCodeType, fs: Seq<(Seq<char>, SpecVal)>|
                        fields_wf(fs) && s@ == #[trigger] spec_message(tag_chars(k), fs) && k
                            != At::fixed_kind() implies false by {}
                }
                Err(e)
            },
            Ok(data) => {
                let res = At { typ: kind, data };
                proof {
                    assert forall|v: At| v.wf_spec() && s@ == #[trigger] v.wire_spec() implies res.same_payload(&v) by {
                        lemma_at_fields(v.data);
                    }
                    assert forall|k: CQCodeType, fs: Seq<(Seq<char>, SpecVal)>|
                        fields_wf(fs) && s@ == #[trigger] spec_message(tag_chars(k), fs) && k
                            != At::fixed_kind() implies false by {}
                    assert(ws_interleave(s@, res.wire_spec())) by {
                        assert(views_of(fields@) == at_fields(data));
                    }
                }
                Ok(res)
            },
        }
    }

    fn to_raw_message(&self) -> (r: RawMessage) {
        let fields = at_to_fields(&self.data);
        encode_wire_kind(CQCodeType::At, &fields)
    }
}

#[derive(Debug, Clone, PartialEq)]
pub struct ShareInner {
    pub url: Option<String>,
    pub title: Option<String>,
    pub content: Option<String>,
    pub image: Option<String>,
}

#[derive(Debug, Clone, PartialEq)]
pub struct Share {
    pub typ: CQCodeType,
    pub data: ShareInner,
}

/// The ordered wire members of a `ShareInner` payload; absent optional
/// fields contribute nothing.
pub open spec fn share_fields(d: ShareInner) -> Seq<(Seq<char>, SpecVal)> {
    opt_s("url"@, d.url) + opt_s("title"@, d.title) + opt_s("content"@, d.content) + opt_s("image"@, d.image)
}

pub open spec fn share_wf(d: ShareInner) -> bool {
    ostr_wf(d.url) && ostr_wf(d.title) && ostr_wf(d.content) && ostr_wf(d.image)
}

/// The field contents of a `ShareInner`, field for field.
pub open spec fn share_model(d: ShareInner) -> (Option<Seq<char>>, Option<Seq<char>>, Option<Seq<char>>, Option<Seq<char>>) {
    (oview_s(d.url), oview_s(d.title), oview_s(d.content), oview_s(d.image))
}

/// Payloads with the same field contents have the same wire members.
pub proof fn lemma_share_fields_model(a: ShareInner, b: ShareInner)
    requires
        share_model(a) == share_model(b),
    ensures
        share_fields(a) == share_fields(b),
{
    assert(opt_s("url"@, a.url) =~= opt_s("url"@, b.url));
    assert(opt_s("title"@, a.title) =~= opt_s("title"@, b.title));
    assert(opt_s("content"@, a.content) =~= opt_s("content"@, b.content));
    assert(opt_s("image"@, a.image) =~= opt_s("image"@, b.image));
    assert(share_fields(a) =~= share_fields(b));
}

#[verifier::rlimit(100)]
pub proof fn lemma_share_fields(d: ShareInner)
    ensures
        share_wf(d) ==> fields_wf(share_fields(d)),
        find_val(share_fields(d), "url"@) == omap_s(d.url),
        find_val(share_fields(d), "title"@) == omap_s(d.title),
        find_val(share_fields(d), "content"@) == omap_s(d.content),
        find_val(share_fields(d), "image"@) == omap_s(d.image),
{
    lemma_names();
    if share_wf(d) {
        lemma_wf_single_s("url"@, d.url);
        lemma_wf_single_s("title"@, d.title);
        lemma_wf_single_s("content"@, d.content);
        lemma_wf_single_s("image"@, d.image);
        lemma_wf_concat(opt_s("url"@, d.url), opt_s("title"@, d.title));
        lemma_wf_concat(opt_s("url"@, d.url) + opt_s("title"@, d.title), opt_s("content"@, d.content));
        lemma_wf_concat(opt_s("url"@, d.url) + opt_s("title"@, d.title) + opt_s("content"@, d.content), opt_s("image"@, d.image));
    }
    lemma_find_concat2(opt_s("url"@, d.url) + opt_s("title"@, d.title) + opt_s("content"@, d.content), opt_s("image"@, d.image), "url"@);
    lemma_find_concat2(opt_s("url"@, d.url) + opt_s("title"@, d.title), opt_s("content"@, d.content), "url"@);
    lemma_find_concat2(opt_s("url"@, d.url), opt_s("title"@, d.title), "url"@);
    lemma_find_concat2(opt_s("url"@, d.url) + opt_s("title"@, d.title) + opt_s("content"@, d.content), opt_s("image"@, d.image), "title"@);
    lemma_find_concat2(opt_s("url"@, d.url) + opt_s("title"@, d.title), opt_s("content"@, d.content), "title"@);
    lemma_find_concat2(opt_s("url"@, d.url), opt_s("title"@, d.title), "title"@);
    lemma_find_concat2(opt_s("url"@, d.url) + opt_s("title"@, d.title) + opt_s("content"@, d.content), opt_s("image"@, d.image), "content"@);
    lemma_find_concat2(opt_s("url"@, d.url) + opt_s("title"@, d.title), opt_s("content"@, d.content), "content"@);
    lemma_find_concat2(opt_s("url"@, d.url), opt_s("title"@, d.title), "content"@);
    lemma_find_concat2(opt_s("url"@, d.url) + opt_s("title"@, d.title) + opt_s("content"@, d.content), opt_s("image"@, d.image), "image"@);
    lemma_find_concat2(opt_s("url"@, d.url) + opt_s("title"@, d.title), opt_s("content"@, d.content), "image"@);
    lemma_find_concat2(opt_s("url"@, d.url), opt_s("title"@, d.title), "image"@);
    lemma_find_single_s("url"@, d.url, "url"@);
    lemma_find_single_s("url"@, d.url, "title"@);
    lemma_find_single_s("url"@, d.url, "content"@);
    lemma_find_single_s("url"@, d.url, "image"@);
    lemma_find_single_s("title"@, d.title, "url"@);
    lemma_find_single_s("title"@, d.title, "title"@);
    lemma_find_single_s("title"@, d.title, "content"@);
    lemma_find_single_s("title"@, d.title, "image"@);
    lemma_find_single_s("content"@, d.content, "url"@);
    lemma_find_single_s("content"@, d.content, "title"@);
    lemma_find_single_s("content"@, d.content, "content"@);
    lemma_find_single_s("content"@, d.content, "image"@);
    lemma_find_single_s("image"@, d.image, "url"@);
    lemma_find_single_s("image"@, d.image, "title"@);
    lemma_find_single_s("image"@, d.image, "content"@);
    lemma_find_single_s("image"@, d.image, "image"@);
}

/// Reads a `ShareInner` out of a decoded member list; the list must carry
/// exactly the payload's members, in their canonical order.
#[verifier::rlimit(100)]
pub fn share_from_fields(fs: &Vec<Field>) -> (r: Result<ShareInner, DecodeError>)
    ensures
        forall|d: ShareInner|
            views_of(fs@) == #[trigger] share_fields(d) ==> (r matches Ok(w) && share_model(w)
                == share_model(d)),
        r matches Ok(w) ==> views_of(fs@) == share_fields(w),
        r matches Ok(w) ==> (fields_wf(views_of(fs@)) ==> share_wf(w)),
{
    let url = match get_opt_text(fs, "url") {
        Err(e) => {
            proof {
                assert forall|d: ShareInner| views_of(fs@) == #[trigger] share_fields(d) implies false by {
                    lemma_share_fields(d);
                }
            }
            return Err(e);
        },
        Ok(x) => x,
    };
    let title = match get_opt_text(fs, "title") {
        Err(e) => {
            proof {
                assert forall|d: ShareInner| views_of(fs@) == #[trigger] share_fields(d) implies false by {
                    lemma_share_fields(d);
                }
            }
            return Err(e);
        },
        Ok(x) => x,
    };
    let content = match get_opt_text(fs, "content") {
        Err(e) => {
            proof {
                assert forall|d: ShareInner| views_of(fs@) == #[trigger] share_fields(d) implies false by {
                    lemma_share_fields(d);
                }
            }
            return Err(e);
        },
        Ok(x) => x,
    };
    let image = match get_opt_text(fs, "image") {
        Err(e) => {
            proof {
                assert forall|d: ShareInner| views_of(fs@) == #[trigger] share_fields(d) implies false by {
                    lemma_share_fields(d);
                }
            }
            return Err(e);
        },
        Ok(x) => x,
    };
    let w = ShareInner { url, title, content, image };
    let expect = share_to_fields(&w);
    if !eq_field_lists(fs, &expect) {
        proof {
            assert forall|d: ShareInner| views_of(fs@) == #[trigger] share_fields(d) implies false by {
                lemma_share_fields(d);
                assert(share_model(w) == share_model(d));
                lemma_share_fields_model(w, d);
            }
        }
        return Err(DecodeError::Malformed);
    }
    proof {
        assert forall|d: ShareInner| views_of(fs@) == #[trigger] share_fields(d) implies share_model(w)
            == share_model(d) by {
            lemma_share_fields(d);
        }
        if fields_wf(views_of(fs@)) {
            lemma_find_wf(views_of(fs@), "url"@);
            lemma_find_wf(views_of(fs@), "title"@);
            lemma_find_wf(views_of(fs@), "content"@);
            lemma_find_wf(views_of(fs@), "image"@);
        }
    }
    Ok(w)
}

pub fn share_to_fields(d: &ShareInner) -> (r: Vec<Field>)
    ensures
        views_of(r@) == share_fields(*d),
{
    let mut out: Vec<Field> = Vec::new();
    proof {
        assert(views_of(out@) =~= Seq::<(Seq<char>, SpecVal)>::empty());
    }
    push_opt_text(&mut out, "url", &d.url);
    push_opt_text(&mut out, "title", &d.title);
    push_opt_text(&mut out, "content", &d.content);
    push_opt_text(&mut out, "image", &d.image);
    proof {
        assert(views_of(out@) =~= share_fields(*d));
    }
    out
}

impl CQCode for Share {
    open spec fn fixed_kind() -> CQCodeType {
        CQCodeType::Share
    }

    open spec fn wf_spec(&self) -> bool {
        self.typ == CQCodeType::Share && share_wf(self.data)
    }

    open spec fn wire_spec(&self) -> Seq<char> {
        spec_message(tag_chars(CQCodeType::Share), share_fields(self.data))
    }

    open spec fn same_payload(&self, other: &Self) -> bool {
        self.typ == other.typ && share_model(self.data) == share_model(other.data)
    }

    fn cq_code(&self) -> (k: CQCodeType) {
        CQCodeType::Share
    }

    fn from_raw_message(s: &str) -> (r: Result<Self, DecodeError>) {
        let (kind, fields) = match decode_wire(s) {
            Err(e) => {
                proof {
                    assert forall|v: Share| v.wf_spec() && s@ == #[trigger] v.wire_spec() implies false by {
                        lemma_share_fields(v.data);
                    }
                    assert forall|k: CQCodeType, fs: Seq<(Seq<char>, SpecVal)>|
                        fields_wf(fs) && s@ == #[trigger] spec_message(tag_chars(k), fs) && k
                            != Share::fixed_kind() implies false by {}
                }
                return Err(e);
            },
            Ok(p) => p,
        };
        if kind != CQCodeType::Share {
            proof {
                assert forall|v: Share| v.wf_spec() && s@ == #[trigger] v.wire_spec() implies false by {
                    lemma_share_fields(v.data);
                }
            }
            return Err(DecodeError::MismatchedKindTag);
        }
        match share_from_fields(&fields) {
            Err(e) => {
                proof {
                    assert forall|v: Share| v.wf_spec() && s@ == #[trigger] v.wire_spec() implies false by {
                        lemma_share_fields(v.data);
                    }
                    assert forall|k: CQCodeType, fs: Seq<(Seq<char>, SpecVal)>|
                        fields_wf(fs) && s@ == #[trigger] spec_message(tag_chars(k), fs) && k
                            != Share::fixed_kind() implies false by {}
                }
                Err(e)
            },
            Ok(data) => {
                let res = Share { typ: kind, data };
                proof {
                    assert forall|v: Share| v.wf_spec() && s@ == #[trigger] v.wire_spec() implies res.same_payload(&v) by {
                        lemma_share_fields(v.data);
                    }
                    assert forall|k: CQCodeType, fs: Seq<(Seq<char>, SpecVal)>|
                        fields_wf(fs) && s@ == #[trigger] spec_message(tag_chars(k), fs) && k
                            != Share::fixed_kind() implies false by {}
                    assert(ws_interleave(s@, res.wire_spec())) by {
                        assert(views_of(fields@) == share_fields(data));
                    }
                }
                Ok(res)
            },
        }
    }

    fn to_raw_message(&self) -> (r: RawMessage) {
        let fields = share_to_fields(&self.data);
        encode_wire_kind(CQCodeType::Share, &fields)
    }
}

#[derive(Debug, Clone, PartialEq)]
pub struct MusicInner {
    pub typ: Option<String>,
    pub id: Option<String>,
    pub url: Option<String>,
    pub audio: Option<String>,
    pub title: Option<String>,
    pub content: Option<String>,
    pub image: Option<String>,
}

#[derive(Debug, Clone, PartialEq)]
pub struct Music {
    pub typ: CQCodeType,
    pub data: MusicInner,
}

/// The ordered wire members of a `MusicInner` payload; absent optional
/// fields contribute nothing.
pub open spec fn music_fields(d: MusicInner) -> Seq<(Seq<char>, SpecVal)> {
    opt_s("type"@, d.typ) + opt_s("id"@, d.id) + opt_s("url"@, d.url) + opt_s("audio"@, d.audio) + opt_s("title"@, d.title) + opt_s("content"@, d.content) + opt_s("image"@, d.image)
}

pub open spec fn music_wf(d: MusicInner) -> bool {
    ostr_wf(d.typ) && ostr_wf(d.id) && ostr_wf(d.url) && ostr_wf(d.audio) && ostr_wf(d.title) && ostr_wf(d.content) && ostr_wf(d.image)
}

/// The field contents of a `MusicInner`, field for field.
pub open spec fn music_model(d: MusicInner) -> (Option<Seq<char>>, Option<Seq<char>>, Option<Seq<char>>, Option<Seq<char>>, Option<Seq<char>>, Option<Seq<char>>, Option<Seq<char>>) {
    (oview_s(d.typ), oview_s(d.id), oview_s(d.url), oview_s(d.audio), oview_s(d.title), oview_s(d.content), oview_s(d.image))
}

/// Payloads with the same field contents have the same wire members.
pub proof fn lemma_music_fields_model(a: MusicInner, b: MusicInner)
    requires
        music_model(a) == music_model(b),
    ensures
        music_fields(a) == music_fields(b),
{
    assert(opt_s("type"@, a.typ) =~= opt_s("type"@, b.typ));
    assert(opt_s("id"@, a.id) =~= opt_s("id"@, b.id));
    assert(opt_s("url"@, a.url) =~= opt_s("url"@, b.url));
    assert(opt_s("audio"@, a.audio) =~= opt_s("audio"@, b.audio));
    assert(opt_s("title"@, a.title) =~= opt_s("title"@, b.title));
    assert(opt_s("content"@, a.content) =~= opt_s("content"@, b.content));
    assert(opt_s("image"@, a.image) =~= opt_s("image"@, b.image));
    assert(music_fields(a) =~= music_fields(b));
}

#[verifier::rlimit(100)]
pub proof fn lemma_music_fields(d: MusicInner)
    ensures
        music_wf(d) ==> fields_wf(music_fields(d)),
        find_val(music_fields(d), "type"@) == omap_s(d.typ),
        find_val(music_fields(d), "id"@) == omap_s(d.id),
        find_val(music_fields(d), "url"@) == omap_s(d.url),
        find_val(music_fields(d), "audio"@) == omap_s(d.audio),
        find_val(music_fields(d), "title"@) == omap_s(d.title),
        find_val(music_fields(d), "content"@) == omap_s(d.content),
        find_val(music_fields(d), "image"@) == omap_s(d.image),
{
    lemma_names();
    if music_wf(d) {
        lemma_wf_single_s("type"@, d.typ);
        lemma_wf_single_s("id"@, d.id);
        lemma_wf_single_s("url"@, d.url);
        lemma_wf_single_s("audio"@, d.audio);
        lemma_wf_single_s("title"@, d.title);
        lemma_wf_single_s("content"@, d.content);
        lemma_wf_single_s("image"@, d.image);
        lemma_wf_concat(opt_s("type"@, d.typ), opt_s("id"@, d.id));
        lemma_wf_concat(opt_s("type"@, d.typ) + opt_s("id"@, d.id), opt_s("url"@, d.url));
        lemma_wf_concat(opt_s("type"@, d.typ) + opt_s("id"@, d.id) + opt_s("url"@, d.url), opt_s("audio"@, d.audio));
        lemma_wf_concat(opt_s("type"@, d.typ) + opt_s("id"@, d.id) + opt_s("url"@, d.url) + opt_s("audio"@, d.audio), opt_s("title"@, d.title));
        lemma_wf_concat(opt_s("type"@, d.typ) + opt_s("id"@, d.id) + opt_s("url"@, d.url) + opt_s("audio"@, d.audio) + opt_s("title"@, d.title), opt_s("content"@, d.content));
        lemma_wf_concat(opt_s("type"@, d.typ) + opt_s("id"@, d.id) + opt_s("url"@, d.url) + opt_s("audio"@, d.audio) + opt_s("title"@, d.title) + opt_s("content"@, d.content), opt_s("image"@, d.image));
    }
    lemma_find_concat2(opt_s("type"@, d.typ) + opt_s("id"@, d.id) + opt_s("url"@, d.url) + opt_s("audio"@, d.audio) + opt_s("title"@, d.title) + opt_s("content"@, d.content), opt_s("image"@, d.image), "type"@);
    lemma_find_concat2(opt_s("type"@, d.typ) + opt_s("id"@, d.id) + opt_s("url"@, d.url) + opt_s("audio"@, d.audio) + opt_s("title"@, d.title), opt_s("content"@, d.content), "type"@);
    lemma_find_concat2(opt_s("type"@, d.typ) + opt_s("id"@, d.id) + opt_s("url"@, d.url) + opt_s("audio"@, d.audio), opt_s("title"@, d.title), "type"@);
    lemma_find_concat2(opt_s("type"@, d.typ) + opt_s("id"@, d.id) + opt_s("url"@, d.url), opt_s("audio"@, d.audio), "type"@);
    lemma_find_concat2(opt_s("type"@, d.typ) + opt_s("id"@, d.id), opt_s("url"@, d.url), "type"@);
    lemma_find_concat2(opt_s("type"@, d.typ), opt_s("id"@, d.id), "type"@);
    lemma_find_concat2(opt_s("type"@, d.typ) + opt_s("id"@, d.id) + opt_s("url"@, d.url) + opt_s("audio"@, d.audio) + opt_s("title"@, d.title) + opt_s("content"@, d.content), opt_s("image"@, d.image), "id"@);
    lemma_find_concat2(opt_s("type"@, d.typ) + opt_s("id"@, d.id) + opt_s("url"@, d.url) + opt_s("audio"@, d.audio) + opt_s("title"@, d.title), opt_s("content"@, d.content), "id"@);
    lemma_find_concat2(opt_s("type"@, d.typ) + opt_s("id"@, d.id) + opt_s("url"@, d.url) + opt_s("audio"@, d.audio), opt_s("title"@, d.title), "id"@);
    lemma_find_concat2(opt_s("type"@, d.typ) + opt_s("id"@, d.id) + opt_s("url"@, d.url), opt_s("audio"@, d.audio), "id"@);
    lemma_find_concat2(opt_s("type"@, d.typ) + opt_s("id"@, d.id), opt_s("url"@, d.url), "id"@);
    lemma_find_concat2(opt_s("type"@, d.typ), opt_s("id"@, d.id), "id"@);
    lemma_find_concat2(opt_s("type"@, d.typ) + opt_s("id"@, d.id) + opt_s("url"@, d.url) + opt_s("audio"@, d.audio) + opt_s("title"@, d.title) + opt_s("content"@, d.content), opt_s("image"@, d.image), "url"@);
    lemma_find_concat2(opt_s("type"@, d.typ) + opt_s("id"@, d.id) + opt_s("url"@, d.url) + opt_s("audio"@, d.audio) + opt_s("title"@, d.title), opt_s("content"@, d.content), "url"@);
    lemma_find_concat2(opt_s("type"@, d.typ) + opt_s("id"@, d.id) + opt_s("url"@, d.url) + opt_s("audio"@, d.audio), opt_s("title"@, d.title), "url"@);
    lemma_find_concat2(opt_s("type"@, d.typ) + opt_s("id"@, d.id) + opt_s("url"@, d.url), opt_s("audio"@, d.audio), "url"@);
    lemma_find_concat2(opt_s("type"@, d.typ) + opt_s("id"@, d.id), opt_s("url"@, d.url), "url"@);
    lemma_find_concat2(opt_s("type"@, d.typ), opt_s("id"@, d.id), "url"@);
    lemma_find_concat2(opt_s("type"@, d.typ) + opt_s("id"@, d.id) + opt_s("url"@, d.url) + opt_s("audio"@, d.audio) + opt_s("title"@, d.title) + opt_s("content"@, d.content), opt_s("image"@, d.image), "audio"@);
    lemma_find_concat2(opt_s("type"@, d.typ) + opt_s("id"@, d.id) + opt_s("url"@, d.url) + opt_s("audio"@, d.audio) + opt_s("title"@, d.title), opt_s("content"@, d.content), "audio"@);
    lemma_find_concat2(opt_s("type"@, d.typ) + opt_s("id"@, d.id) + opt_s("url"@, d.url) + opt_s("audio"@, d.audio), opt_s("title"@, d.title), "audio"@);
    lemma_find_concat2(opt_s("type"@, d.typ) + opt_s("id"@, d.id) + opt_s("url"@, d.url), opt_s("audio"@, d.audio), "audio"@);
    lemma_find_concat2(opt_s("type"@, d.typ) + opt_s("id"@, d.id), opt_s("url"@, d.url), "audio"@);
    lemma_find_concat2(opt_s("type"@, d.typ), opt_s("id"@, d.id), "audio"@);
    lemma_find_concat2(opt_s("type"@, d.typ) + opt_s("id"@, d.id) + opt_s("url"@, d.url) + opt_s("audio"@, d.audio) + opt_s("title"@, d.title) + opt_s("content"@, d.content), opt_s("image"@, d.image), "title"@);
    lemma_find_concat2(opt_s("type"@, d.typ) + opt_s("id"@, d.id) + opt_s("url"@, d.url) + opt_s("audio"@, d.audio) + opt_s("title"@, d.title), opt_s("content"@, d.content), "title"@);
    lemma_find_concat2(opt_s("type"@, d.typ) + opt_s("id"@, d.id) + opt_s("url"@, d.url) + opt_s("audio"@, d.audio), opt_s("title"@, d.title), "title"@);
    lemma_find_concat2(opt_s("type"@, d.typ) + opt_s("id"@, d.id) + opt_s("url"@, d.url), opt_s("audio"@, d.audio), "title"@);
    lemma_find_concat2(opt_s("type"@, d.typ) + opt_s("id"@, d.id), opt_s("url"@, d.url), "title"@);
    lemma_find_concat2(opt_s("type"@, d.typ), opt_s("id"@, d.id), "title"@);
    lemma_find_concat2(opt_s("type"@, d.typ) + opt_s("id"@, d.id) + opt_s("url"@, d.url) + opt_s("audio"@, d.audio) + opt_s("title"@, d.title) + opt_s("content"@, d.content), opt_s("image"@, d.image), "content"@);
    lemma_find_concat2(opt_s("type"@, d.typ) + opt_s("id"@, d.id) + opt_s("url"@, d.url) + opt_s("audio"@, d.audio) + opt_s("title"@, d.title), opt_s("content"@, d.content), "content"@);
    lemma_find_concat2(opt_s("type"@, d.typ) + opt_s("id"@, d.id) + opt_s("url"@, d.url) + opt_s("audio"@, d.audio), opt_s("title"@, d.title), "content"@);
    lemma_find_concat2(opt_s("type"@, d.typ) + opt_s("id"@, d.id) + opt_s("url"@, d.url), opt_s("audio"@, d.audio), "content"@);
    lemma_find_concat2(opt_s("type"@, d.typ) + opt_s("id"@, d.id), opt_s("url"@, d.url), "content"@);
    lemma_find_concat2(opt_s("type"@, d.typ), opt_s("id"@, d.id), "content"@);
    lemma_find_concat2(opt_s("type"@, d.typ) + opt_s("id"@, d.id) + opt_s("url"@, d.url) + opt_s("audio"@, d.audio) + opt_s("title"@, d.title) + opt_s("content"@, d.content), opt_s("image"@, d.image), "image"@);
    lemma_find_concat2(opt_s("type"@, d.typ) + opt_s("id"@, d.id) + opt_s("url"@, d.url) + opt_s("audio"@, d.audio) + opt_s("title"@, d.title), opt_s("content"@, d.content), "image"@);
    lemma_find_concat2(opt_s("type"@, d.typ) + opt_s("id"@, d.id) + opt_s("url"@, d.url) + opt_s("audio"@, d.audio), opt_s("title"@, d.title), "image"@);
    lemma_find_concat2(opt_s("type"@, d.typ) + opt_s("id"@, d.id) + opt_s("url"@, d.url), opt_s("audio"@, d.audio), "image"@);
    lemma_find_concat2(opt_s("type"@, d.typ) + opt_s("id"@, d.id), opt_s("url"@, d.url), "image"@);
    lemma_find_concat2(opt_s("type"@, d.typ), opt_s("id"@, d.id), "image"@);
    lemma_find_single_s("type"@, d.typ, "type"@);
    lemma_find_single_s("type"@, d.typ, "id"@);
    lemma_find_single_s("type"@, d.typ, "url"@);
    lemma_find_single_s("type"@, d.typ, "audio"@);
    lemma_find_single_s("type"@, d.typ, "title"@);
    lemma_find_single_s("type"@, d.typ, "content"@);
    lemma_find_single_s("type"@, d.typ, "image"@);
    lemma_find_single_s("id"@, d.id, "type"@);
    lemma_find_single_s("id"@, d.id, "id"@);
    lemma_find_single_s("id"@, d.id, "url"@);
    lemma_find_single_s("id"@, d.id, "audio"@);
    lemma_find_single_s("id"@, d.id, "title"@);
    lemma_find_single_s("id"@, d.id, "content"@);
    lemma_find_single_s("id"@, d.id, "image"@);
    lemma_find_single_s("url"@, d.url, "type"@);
    lemma_find_single_s("url"@, d.url, "id"@);
    lemma_find_single_s("url"@, d.url, "url"@);
    lemma_find_single_s("url"@, d.url, "audio"@);
    lemma_find_single_s("url"@, d.url, "title"@);
    lemma_find_single_s("url"@, d.url, "content"@);
    lemma_find_single_s("url"@, d.url, "image"@);
    lemma_find_single_s("audio"@, d.audio, "type"@);
    lemma_find_single_s("audio"@, d.audio, "id"@);
    lemma_find_single_s("audio"@, d.audio, "url"@);
    lemma_find_single_s("audio"@, d.audio, "audio"@);
    lemma_find_single_s("audio"@, d.audio, "title"@);
    lemma_find_single_s("audio"@, d.audio, "content"@);
    lemma_find_single_s("audio"@, d.audio, "image"@);
    lemma_find_single_s("title"@, d.title, "type"@);
    lemma_find_single_s("title"@, d.title, "id"@);
    lemma_find_single_s("title"@, d.title, "url"@);
    lemma_find_single_s("title"@, d.title, "audio"@);
    lemma_find_single_s("title"@, d.title, "title"@);
    lemma_find_single_s("title"@, d.title, "content"@);
    lemma_find_single_s("title"@, d.title, "image"@);
    lemma_find_single_s("content"@, d.content, "type"@);
    lemma_find_single_s("content"@, d.content, "id"@);
    lemma_find_single_s("content"@, d.content, "url"@);
    lemma_find_single_s("content"@, d.content, "audio"@);
    lemma_find_single_s("content"@, d.content, "title"@);
    lemma_find_single_s("content"@, d.content, "content"@);
    lemma_find_single_s("content"@, d.content, "image"@);
    lemma_find_single_s("image"@, d.image, "type"@);
    lemma_find_single_s("image"@, d.image, "id"@);
    lemma_find_single_s("image"@, d.image, "url"@);
    lemma_find_single_s("image"@, d.image, "audio"@);
    lemma_find_single_s("image"@, d.image, "title"@);
    lemma_find_single_s("image"@, d.image, "content"@);
    lemma_find_single_s("image"@, d.image, "image"@);
}

/// Reads a `MusicInner` out of a decoded member list; the list must carry
/// exactly the payload's members, in their canonical order.
#[verifier::rlimit(100)]
pub fn music_from_fields(fs: &Vec<Field>) -> (r: Result<MusicInner, DecodeError>)
    ensures
        forall|d: MusicInner|
            views_of(fs@) == #[trigger] music_fields(d) ==> (r matches Ok(w) && music_model(w)
                == music_model(d)),
        r matches Ok(w) ==> views_of(fs@) == music_fields(w),
        r matches Ok(w) ==> (fields_wf(views_of(fs@)) ==> music_wf(w)),
{
    let typ = match get_opt_text(fs, "type") {
        Err(e) => {
            proof {
                assert forall|d: MusicInner| views_of(fs@) == #[trigger] music_fields(d) implies false by {
                    lemma_music_fields(d);
                }
            }
            return Err(e);
        },
        Ok(x) => x,
    };
    let id = match get_opt_text(fs, "id") {
        Err(e) => {
            proof {
                assert forall|d: MusicInner| views_of(fs@) == #[trigger] music_fields(d) implies false by {
                    lemma_music_fields(d);
                }
            }
            return Err(e);
        },
        Ok(x) => x,
    };
    let url = match get_opt_text(fs, "url") {
        Err(e) => {
            proof {
                assert forall|d: MusicInner| views_of(fs@) == #[trigger] music_fields(d) implies false by {
                    lemma_music_fields(d);
                }
            }
            return Err(e);
        },
        Ok(x) => x,
    };
    let audio = match get_opt_text(fs, "audio") {
        Err(e) => {
            proof {
                assert forall|d: MusicInner| views_of(fs@) == #[trigger] music_fields(d) implies false by {
                    lemma_music_fields(d);
                }
            }
            return Err(e);
        },
        Ok(x) => x,
    };
    let title = match get_opt_text(fs, "title") {
        Err(e) => {
            proof {
                assert forall|d: MusicInner| views_of(fs@) == #[trigger] music_fields(d) implies false by {
                    lemma_music_fields(d);
                }
            }
            return Err(e);
        },
        Ok(x) => x,
    };
    let content = match get_opt_text(fs, "content") {
        Err(e) => {
            proof {
                assert forall|d: MusicInner| views_of(fs@) == #[trigger] music_fields(d) implies false by {
                    lemma_music_fields(d);
                }
            }
            return Err(e);
        },
        Ok(x) => x,
    };
    let image = match get_opt_text(fs, "image") {
        Err(e) => {
            proof {
                assert forall|d: MusicInner| views_of(fs@) == #[trigger] music_fields(d) implies false by {
                    lemma_music_fields(d);
                }
            }
            return Err(e);
        },
        Ok(x) => x,
    };
    let w = MusicInner { typ, id, url, audio, title, content, image };
    let expect = music_to_fields(&w);
    if !eq_field_lists(fs, &expect) {
        proof {
            assert forall|d: MusicInner| views_of(fs@) == #[trigger] music_fields(d) implies false by {
                lemma_music_fields(d);
                assert(music_model(w) == music_model(d));
                lemma_music_fields_model(w, d);
            }
        }
        return Err(DecodeError::Malformed);
    }
    proof {
        assert forall|d: MusicInner| views_of(fs@) == #[trigger] music_fields(d) implies music_model(w)
            == music_model(d) by {
            lemma_music_fields(d);
        }
        if fields_wf(views_of(fs@)) {
            lemma_find_wf(views_of(fs@), "type"@);
            lemma_find_wf(views_of(fs@), "id"@);
            lemma_find_wf(views_of(fs@), "url"@);
            lemma_find_wf(views_of(fs@), "audio"@);
            lemma_find_wf(views_of(fs@), "title"@);
            lemma_find_wf(views_of(fs@), "content"@);
            lemma_find_wf(views_of(fs@), "image"@);
        }
    }
    Ok(w)
}

pub fn music_to_fields(d: &MusicInner) -> (r: Vec<Field>)
    ensures
        views_of(r@) == music_fields(*d),
{
    let mut out: Vec<Field> = Vec::new();
    proof {
        assert(views_of(out@) =~= Seq::<(Seq<char>, SpecVal)>::empty());
    }
    push_opt_text(&mut out, "type", &d.typ);
    push_opt_text(&mut out, "id", &d.id);
    push_opt_text(&mut out, "url", &d.url);
    push_opt_text(&mut out, "audio", &d.audio);
    push_opt_text(&mut out, "title", &d.title);
    push_opt_text(&mut out, "content", &d.content);
    push_opt_text(&mut out, "image", &d.image);
    proof {
        assert(views_of(out@) =~= music_fields(*d));
    }
    out
}

impl CQCode for Music {
    open spec fn fixed_kind() -> CQCodeType {
        CQCodeType::Music
    }

    open spec fn wf_spec(&self) -> bool {
        self.typ == CQCodeType::Music && music_wf(self.data)
    }

    open spec fn wire_spec(&self) -> Seq<char> {
        spec_message(tag_chars(CQCodeType::Music), music_fields(self.data))
    }

    open spec fn same_payload(&self, other: &Self) -> bool {
        self.typ == other.typ && music_model(self.data) == music_model(other.data)
    }

    fn cq_code(&self) -> (k: CQCodeType) {
        CQCodeType::Music
    }

    fn from_raw_message(s: &str) -> (r: Result<Self, DecodeError>) {
        let (kind, fields) = match decode_wire(s) {
            Err(e) => {
                proof {
                    assert forall|v: Music| v.wf_spec() && s@ == #[trigger] v.wire_spec() implies false by {
                        lemma_music_fields(v.data);
                    }
                    assert forall|k: CQCodeType, fs: Seq<(Seq<char>, SpecVal)>|
                        fields_wf(fs) && s@ == #[trigger] spec_message(tag_chars(k), fs) && k
                            != Music::fixed_kind() implies false by {}
                }
                return Err(e);
            },
            Ok(p) => p,
        };
        if kind != CQCodeType::Music {
            proof {
                assert forall|v: Music| v.wf_spec() && s@ == #[trigger] v.wire_spec() implies false by {
                    lemma_music_fields(v.data);
                }
            }
            return Err(DecodeError::MismatchedKindTag);
        }
        match music_from_fields(&fields) {
            Err(e) => {
                proof {
                    assert forall|v: Music| v.wf_spec() && s@ == #[trigger] v.wire_spec() implies false by {
                        lemma_music_fields(v.data);
                    }
                    assert forall|k: CQCodeType, fs: Seq<(Seq<char>, SpecVal)>|
                        fields_wf(fs) && s@ == #[trigger] spec_message(tag_chars(k), fs) && k
                            != Music::fixed_kind() implies false by {}
                }
                Err(e)
            },
            Ok(data) => {
                let res = Music { typ: kind, data };
                proof {
                    assert forall|v: Music| v.wf_spec() && s@ == #[trigger] v.wire_spec() implies res.same_payload(&v) by {
                        lemma_music_fields(v.data);
                    }
                    assert forall|k: CQCodeType, fs: Seq<(Seq<char>, SpecVal)>|
                        fields_wf(fs) && s@ == #[trigger] spec_message(tag_chars(k), fs) && k
                            != Music::fixed_kind() implies false by {}
                    assert(ws_interleave(s@, res.wire_spec())) by {
                        assert(views_of(fields@) == music_fields(data));
                    }
                }
                Ok(res)
            },
        }
    }

    fn to_raw_message(&self) -> (r: RawMessage) {
        let fields = music_to_fields(&self.data);
        encode_wire_kind(CQCodeType::Music, &fields)
    }
}

#[derive(Debug, Clone, PartialEq)]
pub struct ImageInner {
    pub file: Option<String>,
    pub typ: Option<String>,
    pub sub_type: Option<String>,
    pub url: Option<String>,
    pub cache: Option<i32>,
    pub id: Option<i32>,
    pub c: Option<i32>,
}

#[derive(Debug, Clone, PartialEq)]
pub struct Image {
    pub typ: CQCodeType,
    pub data: ImageInner,
}

/// The ordered wire members of a `ImageInner` payload; absent optional
/// fields contribute nothing.
pub open spec fn image_fields(d: ImageInner) -> Seq<(Seq<char>, SpecVal)> {
    opt_s("file"@, d.file) + opt_s("type"@, d.typ) + opt_s("subType"@, d.sub_type) + opt_s("url"@, d.url) + opt_i32("cache"@, d.cache) + opt_i32("id"@, d.id) + opt_i32("c"@, d.c)
}

pub open spec fn image_wf(d: ImageInner) -> bool {
    ostr_wf(d.file) && ostr_wf(d.typ) && ostr_wf(d.sub_type) && ostr_wf(d.url)
}

/// The field contents of a `ImageInner`, field for field.
pub open spec fn image_model(d: ImageInner) -> (Option<Seq<char>>, Option<Seq<char>>, Option<Seq<char>>, Option<Seq<char>>, Option<int>, Option<int>, Option<int>) {
    (oview_s(d.file), oview_s(d.typ), oview_s(d.sub_type), oview_s(d.url), oview_i32(d.cache), oview_i32(d.id), oview_i32(d.c))
}

/// Payloads with the same field contents have the same wire members.
pub proof fn lemma_image_fields_model(a: ImageInner, b: ImageInner)
    requires
        image_model(a) == image_model(b),
    ensures
        image_fields(a) == image_fields(b),
{
    assert(opt_s("file"@, a.file) =~= opt_s("file"@, b.file));
    assert(opt_s("type"@, a.typ) =~= opt_s("type"@, b.typ));
    assert(opt_s("subType"@, a.sub_type) =~= opt_s("subType"@, b.sub_type));
    assert(opt_s("url"@, a.url) =~= opt_s("url"@, b.url));
    assert(opt_i32("cache"@, a.cache) =~= opt_i32("cache"@, b.cache));
    assert(opt_i32("id"@, a.id) =~= opt_i32("id"@, b.id));
    assert(opt_i32("c"@, a.c) =~= opt_i32("c"@, b.c));
    assert(image_fields(a) =~= image_fields(b));
}

#[verifier::rlimit(100)]
pub proof fn lemma_image_fields(d: ImageInner)
    ensures
        image_wf(d) ==> fields_wf(image_fields(d)),
        find_val(image_fields(d), "file"@) == omap_s(d.file),
        find_val(image_fields(d), "type"@) == omap_s(d.typ),
        find_val(image_fields(d), "subType"@) == omap_s(d.sub_type),
        find_val(image_fields(d), "url"@) == omap_s(d.url),
        find_val(image_fields(d), "cache"@) == omap_i32(d.cache),
        find_val(image_fields(d), "id"@) == omap_i32(d.id),
        find_val(image_fields(d), "c"@) == omap_i32(d.c),
{
    lemma_names();
    if image_wf(d) {
        lemma_wf_single_s("file"@, d.file);
        lemma_wf_single_s("type"@, d.typ);
        lemma_wf_single_s("subType"@, d.sub_type);
        lemma_wf_single_s("url"@, d.url);
        lemma_wf_single_i32("cache"@, d.cache);
        lemma_wf_single_i32("id"@, d.id);
        lemma_wf_single_i32("c"@, d.c);
        lemma_wf_concat(opt_s("file"@, d.file), opt_s("type"@, d.typ));
        lemma_wf_concat(opt_s("file"@, d.file) + opt_s("type"@, d.typ), opt_s("subType"@, d.sub_type));
        lemma_wf_concat(opt_s("file"@, d.file) + opt_s("type"@, d.typ) + opt_s("subType"@, d.sub_type), opt_s("url"@, d.url));
        lemma_wf_concat(opt_s("file"@, d.file) + opt_s("type"@, d.typ) + opt_s("subType"@, d.sub_type) + opt_s("url"@, d.url), opt_i32("cache"@, d.cache));
        lemma_wf_concat(opt_s("file"@, d.file) + opt_s("type"@, d.typ) + opt_s("subType"@, d.sub_type) + opt_s("url"@, d.url) + opt_i32("cache"@, d.cache), opt_i32("id"@, d.id));
        lemma_wf_concat(opt_s("file"@, d.file) + opt_s("type"@, d.typ) + opt_s("subType"@, d.sub_type) + opt_s("url"@, d.url) + opt_i32("cache"@, d.cache) + opt_i32("id"@, d.id), opt_i32("c"@, d.c));
    }
    lemma_find_concat2(opt_s("file"@, d.file) + opt_s("type"@, d.typ) + opt_s("subType"@, d.sub_type) + opt_s("url"@, d.url) + opt_i32("cache"@, d.cache) + opt_i32("id"@, d.id), opt_i32("c"@, d.c), "file"@);
    lemma_find_concat2(opt_s("file"@, d.file) + opt_s("type"@, d.typ) + opt_s("subType"@, d.sub_type) + opt_s("url"@, d.url) + opt_i32("cache"@, d.cache), opt_i32("id"@, d.id), "file"@);
    lemma_find_concat2(opt_s("file"@, d.file) + opt_s("type"@, d.typ) + opt_s("subType"@, d.sub_type) + opt_s("url"@, d.url), opt_i32("cache"@, d.cache), "file"@);
    lemma_find_concat2(opt_s("file"@, d.file) + opt_s("type"@, d.typ) + opt_s("subType"@, d.sub_type), opt_s("url"@, d.url), "file"@);
    lemma_find_concat2(opt_s("file"@, d.file) + opt_s("type"@, d.typ), opt_s("subType"@, d.sub_type), "file"@);
    lemma_find_concat2(opt_s("file"@, d.file), opt_s("type"@, d.typ), "file"@);
    lemma_find_concat2(opt_s("file"@, d.file) + opt_s("type"@, d.typ) + opt_s("subType"@, d.sub_type) + opt_s("url"@, d.url) + opt_i32("cache"@, d.cache) + opt_i32("id"@, d.id), opt_i32("c"@, d.c), "type"@);
    lemma_find_concat2(opt_s("file"@, d.file) + opt_s("type"@, d.typ) + opt_s("subType"@, d.sub_type) + opt_s("url"@, d.url) + opt_i32("cache"@, d.cache), opt_i32("id"@, d.id), "type"@);
    lemma_find_concat2(opt_s("file"@, d.file) + opt_s("type"@, d.typ) + opt_s("subType"@, d.sub_type) + opt_s("url"@, d.url), opt_i32("cache"@, d.cache), "type"@);
    lemma_find_concat2(opt_s("file"@, d.file) + opt_s("type"@, d.typ) + opt_s("subType"@, d.sub_type), opt_s("url"@, d.url), "type"@);
    lemma_find_concat2(opt_s("file"@, d.file) + opt_s("type"@, d.typ), opt_s("subType"@, d.sub_type), "type"@);
    lemma_find_concat2(opt_s("file"@, d.file), opt_s("type"@, d.typ), "type"@);
    lemma_find_concat2(opt_s("file"@, d.file) + opt_s("type"@, d.typ) + opt_s("subType"@, d.sub_type) + opt_s("url"@, d.url) + opt_i32("cache"@, d.cache) + opt_i32("id"@, d.id), opt_i32("c"@, d.c), "subType"@);
    lemma_find_concat2(opt_s("file"@, d.file) + opt_s("type"@, d.typ) + opt_s("subType"@, d.sub_type) + opt_s("url"@, d.url) + opt_i32("cache"@, d.cache), opt_i32("id"@, d.id), "subType"@);
    lemma_find_concat2(opt_s("file"@, d.file) + opt_s("type"@, d.typ) + opt_s("subType"@, d.sub_type) + opt_s("url"@, d.url), opt_i32("cache"@, d.cache), "subType"@);
    lemma_find_concat2(opt_s("file"@, d.file) + opt_s("type"@, d.typ) + opt_s("subType"@, d.sub_type), opt_s("url"@, d.url), "subType"@);
    lemma_find_concat2(opt_s("file"@, d.file) + opt_s("type"@, d.typ), opt_s("subType"@, d.sub_type), "subType"@);
    lemma_find_concat2(opt_s("file"@, d.file), opt_s("type"@, d.typ), "subType"@);
    lemma_find_concat2(opt_s("file"@, d.file) + opt_s("type"@, d.typ) + opt_s("subType"@, d.sub_type) + opt_s("url"@, d.url) + opt_i32("cache"@, d.cache) + opt_i32("id"@, d.id), opt_i32("c"@, d.c), "url"@);
    lemma_find_concat2(opt_s("file"@, d.file) + opt_s("type"@, d.typ) + opt_s("subType"@, d.sub_type) + opt_s("url"@, d.url) + opt_i32("cache"@, d.cache), opt_i32("id"@, d.id), "url"@);
    lemma_find_concat2(opt_s("file"@, d.file) + opt_s("type"@, d.typ) + opt_s("subType"@, d.sub_type) + opt_s("url"@, d.url), opt_i32("cache"@, d.cache), "url"@);
    lemma_find_concat2(opt_s("file"@, d.file) + opt_s("type"@, d.typ) + opt_s("subType"@, d.sub_type), opt_s("url"@, d.url), "url"@);
    lemma_find_concat2(opt_s("file"@, d.file) + opt_s("type"@, d.typ), opt_s("subType"@, d.sub_type), "url"@);
    lemma_find_concat2(opt_s("file"@, d.file), opt_s("type"@, d.typ), "url"@);
    lemma_find_concat2(opt_s("file"@, d.file) + opt_s("type"@, d.typ) + opt_s("subType"@, d.sub_type) + opt_s("url"@, d.url) + opt_i32("cache"@, d.cache) + opt_i32("id"@, d.id), opt_i32("c"@, d.c), "cache"@);
    lemma_find_concat2(opt_s("file"@, d.file) + opt_s("type"@, d.typ) + opt_s("subType"@, d.sub_type) + opt_s("url"@, d.url) + opt_i32("cache"@, d.cache), opt_i32("id"@, d.id), "cache"@);
    lemma_find_concat2(opt_s("file"@, d.file) + opt_s("type"@, d.typ) + opt_s("subType"@, d.sub_type) + opt_s("url"@, d.url), opt_i32("cache"@, d.cache), "cache"@);
    lemma_find_concat2(opt_s("file"@, d.file) + opt_s("type"@, d.typ) + opt_s("subType"@, d.sub_type), opt_s("url"@, d.url), "cache"@);
    lemma_find_concat2(opt_s("file"@, d.file) + opt_s("type"@, d.typ), opt_s("subType"@, d.sub_type), "cache"@);
    lemma_find_concat2(opt_s("file"@, d.file), opt_s("type"@, d.typ), "cache"@);
    lemma_find_concat2(opt_s("file"@, d.file) + opt_s("type"@, d.typ) + opt_s("subType"@, d.sub_type) + opt_s("url"@, d.url) + opt_i32("cache"@, d.cache) + opt_i32("id"@, d.id), opt_i32("c"@, d.c), "id"@);
    lemma_find_concat2(opt_s("file"@, d.file) + opt_s("type"@, d.typ) + opt_s("subType"@, d.sub_type) + opt_s("url"@, d.url) + opt_i32("cache"@, d.cache), opt_i32("id"@, d.id), "id"@);
    lemma_find_concat2(opt_s("file"@, d.file) + opt_s("type"@, d.typ) + opt_s("subType"@, d.sub_type) + opt_s("url"@, d.url), opt_i32("cache"@, d.cache), "id"@);
    lemma_find_concat2(opt_s("file"@, d.file) + opt_s("type"@, d.typ) + opt_s("subType"@, d.sub_type), opt_s("url"@, d.url), "id"@);
    lemma_find_concat2(opt_s("file"@, d.file) + opt_s("type"@, d.typ), opt_s("subType"@, d.sub_type), "id"@);
    lemma_find_concat2(opt_s("file"@, d.file), opt_s("type"@, d.typ), "id"@);
    lemma_find_concat2(opt_s("file"@, d.file) + opt_s("type"@, d.typ) + opt_s("subType"@, d.sub_type) + opt_s("url"@, d.url) + opt_i32("cache"@, d.cache) + opt_i32("id"@, d.id), opt_i32("c"@, d.c), "c"@);
    lemma_find_concat2(opt_s("file"@, d.file) + opt_s("type"@, d.typ) + opt_s("subType"@, d.sub_type) + opt_s("url"@, d.url) + opt_i32("cache"@, d.cache), opt_i32("id"@, d.id), "c"@);
    lemma_find_concat2(opt_s("file"@, d.file) + opt_s("type"@, d.typ) + opt_s("subType"@, d.sub_type) + opt_s("url"@, d.url), opt_i32("cache"@, d.cache), "c"@);
    lemma_find_concat2(opt_s("file"@, d.file) + opt_s("type"@, d.typ) + opt_s("subType"@, d.sub_type), opt_s("url"@, d.url), "c"@);
    lemma_find_concat2(opt_s("file"@, d.file) + opt_s("type"@, d.typ), opt_s("subType"@, d.sub_type), "c"@);
    lemma_find_concat2(opt_s("file"@, d.file), opt_s("type"@, d.typ), "c"@);
    lemma_find_single_s("file"@, d.file, "file"@);
    lemma_find_single_s("file"@, d.file, "type"@);
    lemma_find_single_s("file"@, d.file, "subType"@);
    lemma_find_single_s("file"@, d.file, "url"@);
    lemma_find_single_s("file"@, d.file, "cache"@);
    lemma_find_single_s("file"@, d.file, "id"@);
    lemma_find_single_s("file"@, d.file, "c"@);
    lemma_find_single_s("type"@, d.typ, "file"@);
    lemma_find_single_s("type"@, d.typ, "type"@);
    lemma_find_single_s("type"@, d.typ, "subType"@);
    lemma_find_single_s("type"@, d.typ, "url"@);
    lemma_find_single_s("type"@, d.typ, "cache"@);
    lemma_find_single_s("type"@, d.typ, "id"@);
    lemma_find_single_s("type"@, d.typ, "c"@);
    lemma_find_single_s("subType"@, d.sub_type, "file"@);
    lemma_find_single_s("subType"@, d.sub_type, "type"@);
    lemma_find_single_s("subType"@, d.sub_type, "subType"@);
    lemma_find_single_s("subType"@, d.sub_type, "url"@);
    lemma_find_single_s("subType"@, d.sub_type, "cache"@);
    lemma_find_single_s("subType"@, d.sub_type, "id"@);
    lemma_find_single_s("subType"@, d.sub_type, "c"@);
    lemma_find_single_s("url"@, d.url, "file"@);
    lemma_find_single_s("url"@, d.url, "type"@);
    lemma_find_single_s("url"@, d.url, "subType"@);
    lemma_find_single_s("url"@, d.url, "url"@);
    lemma_find_single_s("url"@, d.url, "cache"@);
    lemma_find_single_s("url"@, d.url, "id"@);
    lemma_find_single_s("url"@, d.url, "c"@);
    lemma_find_single_i32("cache"@, d.cache, "file"@);
    lemma_find_single_i32("cache"@, d.cache, "type"@);
    lemma_find_single_i32("cache"@, d.cache, "subType"@);
    lemma_find_single_i32("cache"@, d.cache, "url"@);
    lemma_find_single_i32("cache"@, d.cache, "cache"@);
    lemma_find_single_i32("cache"@, d.cache, "id"@);
    lemma_find_single_i32("cache"@, d.cache, "c"@);
    lemma_find_single_i32("id"@, d.id, "file"@);
    lemma_find_single_i32("id"@, d.id, "type"@);
    lemma_find_single_i32("id"@, d.id, "subType"@);
    lemma_find_single_i32("id"@, d.id, "url"@);
    lemma_find_single_i32("id"@, d.id, "cache"@);
    lemma_find_single_i32("id"@, d.id, "id"@);
    lemma_find_single_i32("id"@, d.id, "c"@);
    lemma_find_single_i32("c"@, d.c, "file"@);
    lemma_find_single_i32("c"@, d.c, "type"@);
    lemma_find_single_i32("c"@, d.c, "subType"@);
    lemma_find_single_i32("c"@, d.c, "url"@);
    lemma_find_single_i32("c"@, d.c, "cache"@);
    lemma_find_single_i32("c"@, d.c, "id"@);
    lemma_find_single_i32("c"@, d.c, "c"@);
}

/// Reads a `ImageInner` out of a decoded member list; the list must carry
/// exactly the payload's members, in their canonical order.
#[verifier::rlimit(100)]
pub fn image_from_fields(fs: &Vec<Field>) -> (r: Result<ImageInner, DecodeError>)
    ensures
        forall|d: ImageInner|
            views_of(fs@) == #[trigger] image_fields(d) ==> (r matches Ok(w) && image_model(w)
                == image_model(d)),
        r matches Ok(w) ==> views_of(fs@) == image_fields(w),
        r matches Ok(w) ==> (fields_wf(views_of(fs@)) ==> image_wf(w)),
{
    let file = match get_opt_text(fs, "file") {
        Err(e) => {
            proof {
                assert forall|d: ImageInner| views_of(fs@) == #[trigger] image_fields(d) implies false by {
                    lemma_image_fields(d);
                }
            }
            return Err(e);
        },
        Ok(x) => x,
    };
    let typ = match get_opt_text(fs, "type") {
        Err(e) => {
            proof {
                assert forall|d: ImageInner| views_of(fs@) == #[trigger] image_fields(d) implies false by {
                    lemma_image_fields(d);
                }
            }
            return Err(e);
        },
        Ok(x) => x,
    };
    let sub_type = match get_opt_text(fs, "subType") {
        Err(e) => {
            proof {
                assert forall|d: ImageInner| views_of(fs@) == #[trigger] image_fields(d) implies false by {
                    lemma_image_fields(d);
                }
            }
            return Err(e);
        },
        Ok(x) => x,
    };
    let url = match get_opt_text(fs, "url") {
        Err(e) => {
            proof {
                assert forall|d: ImageInner| views_of(fs@) == #[trigger] image_fields(d) implies false by {
                    lemma_image_fields(d);
                }
            }
            return Err(e);
        },
        Ok(x) => x,
    };
    let cache = match get_opt_i32(fs, "cache") {
        Err(e) => {
            proof {
                assert forall|d: ImageInner| views_of(fs@) == #[trigger] image_fields(d) implies false by {
                    lemma_image_fields(d);
                }
            }
            return Err(e);
        },
        Ok(x) => x,
    };
    let id = match get_opt_i32(fs, "id") {
        Err(e) => {
            proof {
                assert forall|d: ImageInner| views_of(fs@) == #[trigger] image_fields(d) implies false by {
                    lemma_image_fields(d);
                }
            }
            return Err(e);
        },
        Ok(x) => x,
    };
    let c = match get_opt_i32(fs, "c") {
        Err(e) => {
            proof {
                assert forall|d: ImageInner| views_of(fs@) == #[trigger] image_fields(d) implies false by {
                    lemma_image_fields(d);
                }
            }
            return Err(e);
        },
        Ok(x) => x,
    };
    let w = ImageInner { file, typ, sub_type, url, cache, id, c };
    let expect = image_to_fields(&w);
    if !eq_field_lists(fs, &expect) {
        proof {
            assert forall|d: ImageInner| views_of(fs@) == #[trigger] image_fields(d) implies false by {
                lemma_image_fields(d);
                assert(image_model(w) == image_model(d));
                lemma_image_fields_model(w, d);
            }
        }
        return Err(DecodeError::Malformed);
    }
    proof {
        assert forall|d: ImageInner| views_of(fs@) == #[trigger] image_fields(d) implies image_model(w)
            == image_model(d) by {
            lemma_image_fields(d);
        }
        if fields_wf(views_of(fs@)) {
            lemma_find_wf(views_of(fs@), "file"@);
            lemma_find_wf(views_of(fs@), "type"@);
            lemma_find_wf(views_of(fs@), "subType"@);
            lemma_find_wf(views_of(fs@), "url"@);
        }
    }
    Ok(w)
}

pub fn image_to_fields(d: &ImageInner) -> (r: Vec<Field>)
    ensures
        views_of(r@) == image_fields(*d),
{
    let mut out: Vec<Field> = Vec::new();
    proof {
        assert(views_of(out@) =~= Seq::<(Seq<char>, SpecVal)>::empty());
    }
    push_opt_text(&mut out, "file", &d.file);
    push_opt_text(&mut out, "type", &d.typ);
    push_opt_text(&mut out, "subType", &d.sub_type);
    push_opt_text(&mut out, "url", &d.url);
    push_opt_i32(&mut out, "cache", &d.cache);
    push_opt_i32(&mut out, "id", &d.id);
    push_opt_i32(&mut out, "c", &d.c);
    proof {
        assert(views_of(out@) =~= image_fields(*d));
    }
    out
}

impl CQCode for Image {
    open spec fn fixed_kind() -> CQCodeType {
        CQCodeType::Image
    }

    open spec fn wf_spec(&self) -> bool {
        self.typ == CQCodeType::Image && image_wf(self.data)
    }

    open spec fn wire_spec(&self) -> Seq<char> {
        spec_message(tag_chars(CQCodeType::Image), image_fields(self.data))
    }

    open spec fn same_payload(&self, other: &Self) -> bool {
        self.typ == other.typ && image_model(self.data) == image_model(other.data)
    }

    fn cq_code(&self) -> (k: CQCodeType) {
        CQCodeType::Image
    }

    fn from_raw_message(s: &str) -> (r: Result<Self, DecodeError>) {
        let (kind, fields) = match decode_wire(s) {
            Err(e) => {
                proof {
                    assert forall|v: Image| v.wf_spec() && s@ == #[trigger] v.wire_spec() implies false by {
                        lemma_image_fields(v.data);
                    }
                    assert forall|k: CQCodeType, fs: Seq<(Seq<char>, SpecVal)>|
                        fields_wf(fs) && s@ == #[trigger] spec_message(tag_chars(k), fs) && k
                            != Image::fixed_kind() implies false by {}
                }
                return Err(e);
            },
            Ok(p) => p,
        };
        if kind != CQCodeType::Image {
            proof {
                assert forall|v: Image| v.wf_spec() && s@ == #[trigger] v.wire_spec() implies false by {
                    lemma_image_fields(v.data);
                }
            }
            return Err(DecodeError::MismatchedKindTag);
        }
        match image_from_fields(&fields) {
            Err(e) => {
                proof {
                    assert forall|v: Image| v.wf_spec() && s@ == #[trigger] v.wire_spec() implies false by {
                        lemma_image_fields(v.data);
                    }
                    assert forall|k: CQCodeType, fs: Seq<(Seq<char>, SpecVal)>|
                        fields_wf(fs) && s@ == #[trigger] spec_message(tag_chars(k), fs) && k
                            != Image::fixed_kind() implies false by {}
                }
                Err(e)
            },
            Ok(data) => {
                let res = Image { typ: kind, data };
                proof {
                    assert forall|v: Image| v.wf_spec() && s@ == #[trigger] v.wire_spec() implies res.same_payload(&v) by {
                        lemma_image_fields(v.data);
                    }
                    assert forall|k: CQCodeType, fs: Seq<(Seq<char>, SpecVal)>|
                        fields_wf(fs) && s@ == #[trigger] spec_message(tag_chars(k), fs) && k
                            != Image::fixed_kind() implies false by {}
                    assert(ws_interleave(s@, res.wire_spec())) by {
                        assert(views_of(fields@) == image_fields(data));
                    }
                }
                Ok(res)
            },
        }
    }

    fn to_raw_message(&self) -> (r: RawMessage) {
        let fields = image_to_fields(&self.data);
        encode_wire_kind(CQCodeType::Image, &fields)
    }
}

#[derive(Debug, Clone, PartialEq)]
pub struct ReplyInner {
    pub id: Option<i32>,
    pub text: Option<String>,
    pub qq: Option<i64>,
    pub time: Option<i64>,
    pub seq: Option<i64>,
}

#[derive(Debug, Clone, PartialEq)]
pub struct Reply {
    pub typ: CQCodeType,
    pub data: ReplyInner,
}

/// The ordered wire members of a `ReplyInner` payload; absent optional
/// fields contribute nothing.
pub open spec fn reply_fields(d: ReplyInner) -> Seq<(Seq<char>, SpecVal)> {
    opt_i32("id"@, d.id) + opt_s("text"@, d.text) + opt_i64("qq"@, d.qq) + opt_i64("time"@, d.time) + opt_i64("seq"@, d.seq)
}

pub open spec fn reply_wf(d: ReplyInner) -> bool {
    ostr_wf(d.text)
}

/// The field contents of a `ReplyInner`, field for field.
pub open spec fn reply_model(d: ReplyInner) -> (Option<int>, Option<Seq<char>>, Option<int>, Option<int>, Option<int>) {
    (oview_i32(d.id), oview_s(d.text), oview_i64(d.qq), oview_i64(d.time), oview_i64(d.seq))
}

/// Payloads with the same field contents have the same wire members.
pub proof fn lemma_reply_fields_model(a: ReplyInner, b: ReplyInner)
    requires
        reply_model(a) == reply_model(b),
    ensures
        reply_fields(a) == reply_fields(b),
{
    assert(opt_i32("id"@, a.id) =~= opt_i32("id"@, b.id));
    assert(opt_s("text"@, a.text) =~= opt_s("text"@, b.text));
    assert(opt_i64("qq"@, a.qq) =~= opt_i64("qq"@, b.qq));
    assert(opt_i64("time"@, a.time) =~= opt_i64("time"@, b.time));
    assert(opt_i64("seq"@, a.seq) =~= opt_i64("seq"@, b.seq));
    assert(reply_fields(a) =~= reply_fields(b));
}

#[verifier::rlimit(100)]
pub proof fn lemma_reply_fields(d: ReplyInner)
    ensures
        reply_wf(d) ==> fields_wf(reply_fields(d)),
        find_val(reply_fields(d), "id"@) == omap_i32(d.id),
        find_val(reply_fields(d), "text"@) == omap_s(d.text),
        find_val(reply_fields(d), "qq"@) == omap_i64(d.qq),
        find_val(reply_fields(d), "time"@) == omap_i64(d.time),
        find_val(reply_fields(d), "seq"@) == omap_i64(d.seq),
{
    lemma_names();
    if reply_wf(d) {
        lemma_wf_single_i32("id"@, d.id);
        lemma_wf_single_s("text"@, d.text);
        lemma_wf_single_i64("qq"@, d.qq);
        lemma_wf_single_i64("time"@, d.time);
        lemma_wf_single_i64("seq"@, d.seq);
        lemma_wf_concat(opt_i32("id"@, d.id), opt_s("text"@, d.text));
        lemma_wf_concat(opt_i32("id"@, d.id) + opt_s("text"@, d.text), opt_i64("qq"@, d.qq));
        lemma_wf_concat(opt_i32("id"@, d.id) + opt_s("text"@, d.text) + opt_i64("qq"@, d.qq), opt_i64("time"@, d.time));
        lemma_wf_concat(opt_i32("id"@, d.id) + opt_s("text"@, d.text) + opt_i64("qq"@, d.qq) + opt_i64("time"@, d.time), opt_i64("seq"@, d.seq));
    }
    lemma_find_concat2(opt_i32("id"@, d.id) + opt_s("text"@, d.text) + opt_i64("qq"@, d.qq) + opt_i64("time"@, d.time), opt_i64("seq"@, d.seq), "id"@);
    lemma_find_concat2(opt_i32("id"@, d.id) + opt_s("text"@, d.text) + opt_i64("qq"@, d.qq), opt_i64("time"@, d.time), "id"@);
    lemma_find_concat2(opt_i32("id"@, d.id) + opt_s("text"@, d.text), opt_i64("qq"@, d.qq), "id"@);
    lemma_find_concat2(opt_i32("id"@, d.id), opt_s("text"@, d.text), "id"@);
    lemma_find_concat2(opt_i32("id"@, d.id) + opt_s("text"@, d.text) + opt_i64("qq"@, d.qq) + opt_i64("time"@, d.time), opt_i64("seq"@, d.seq), "text"@);
    lemma_find_concat2(opt_i32("id"@, d.id) + opt_s("text"@, d.text) + opt_i64("qq"@, d.qq), opt_i64("time"@, d.time), "text"@);
    lemma_find_concat2(opt_i32("id"@, d.id) + opt_s("text"@, d.text), opt_i64("qq"@, d.qq), "text"@);
    lemma_find_concat2(opt_i32("id"@, d.id), opt_s("text"@, d.text), "text"@);
    lemma_find_concat2(opt_i32("id"@, d.id) + opt_s("text"@, d.text) + opt_i64("qq"@, d.qq) + opt_i64("time"@, d.time), opt_i64("seq"@, d.seq), "qq"@);
    lemma_find_concat2(opt_i32("id"@, d.id) + opt_s("text"@, d.text) + opt_i64("qq"@, d.qq), opt_i64("time"@, d.time), "qq"@);
    lemma_find_concat2(opt_i32("id"@, d.id) + opt_s("text"@, d.text), opt_i64("qq"@, d.qq), "qq"@);
    lemma_find_concat2(opt_i32("id"@, d.id), opt_s("text"@, d.text), "qq"@);
    lemma_find_concat2(opt_i32("id"@, d.id) + opt_s("text"@, d.text) + opt_i64("qq"@, d.qq) + opt_i64("time"@, d.time), opt_i64("seq"@, d.seq), "time"@);
    lemma_find_concat2(opt_i32("id"@, d.id) + opt_s("text"@, d.text) + opt_i64("qq"@, d.qq), opt_i64("time"@, d.time), "time"@);
    lemma_find_concat2(opt_i32("id"@, d.id) + opt_s("text"@, d.text), opt_i64("qq"@, d.qq), "time"@);
    lemma_find_concat2(opt_i32("id"@, d.id), opt_s("text"@, d.text), "time"@);
    lemma_find_concat2(opt_i32("id"@, d.id) + opt_s("text"@, d.text) + opt_i64("qq"@, d.qq) + opt_i64("time"@, d.time), opt_i64("seq"@, d.seq), "seq"@);
    lemma_find_concat2(opt_i32("id"@, d.id) + opt_s("text"@, d.text) + opt_i64("qq"@, d.qq), opt_i64("time"@, d.time), "seq"@);
    lemma_find_concat2(opt_i32("id"@, d.id) + opt_s("text"@, d.text), opt_i64("qq"@, d.qq), "seq"@);
    lemma_find_concat2(opt_i32("id"@, d.id), opt_s("text"@, d.text), "seq"@);
    lemma_find_single_i32("id"@, d.id, "id"@);
    lemma_find_single_i32("id"@, d.id, "text"@);
    lemma_find_single_i32("id"@, d.id, "qq"@);
    lemma_find_single_i32("id"@, d.id, "time"@);
    lemma_find_single_i32("id"@, d.id, "seq"@);
    lemma_find_single_s("text"@, d.text, "id"@);
    lemma_find_single_s("text"@, d.text, "text"@);
    lemma_find_single_s("text"@, d.text, "qq"@);
    lemma_find_single_s("text"@, d.text, "time"@);
    lemma_find_single_s("text"@, d.text, "seq"@);
    lemma_find_single_i64("qq"@, d.qq, "id"@);
    lemma_find_single_i64("qq"@, d.qq, "text"@);
    lemma_find_single_i64("qq"@, d.qq, "qq"@);
    lemma_find_single_i64("qq"@, d.qq, "time"@);
    lemma_find_single_i64("qq"@, d.qq, "seq"@);
    lemma_find_single_i64("time"@, d.time, "id"@);
    lemma_find_single_i64("time"@, d.time, "text"@);
    lemma_find_single_i64("time"@, d.time, "qq"@);
    lemma_find_single_i64("time"@, d.time, "time"@);
    lemma_find_single_i64("time"@, d.time, "seq"@);
    lemma_find_single_i64("seq"@, d.seq, "id"@);
    lemma_find_single_i64("seq"@, d.seq, "text"@);
    lemma_find_single_i64("seq"@, d.seq, "qq"@);
    lemma_find_single_i64("seq"@, d.seq, "time"@);
    lemma_find_single_i64("seq"@, d.seq, "seq"@);
}

/// Reads a `ReplyInner` out of a decoded member list; the list must carry
/// exactly the payload's members, in their canonical order.
#[verifier::rlimit(100)]
pub fn reply_from_fields(fs: &Vec<Field>) -> (r: Result<ReplyInner, DecodeError>)
    ensures
        forall|d: ReplyInner|
            views_of(fs@) == #[trigger] reply_fields(d) ==> (r matches Ok(w) && reply_model(w)
                == reply_model(d)),
        r matches Ok(w) ==> views_of(fs@) == reply_fields(w),
        r matches Ok(w) ==> (fields_wf(views_of(fs@)) ==> reply_wf(w)),
{
    let id = match get_opt_i32(fs, "id") {
        Err(e) => {
            proof {
                assert forall|d: ReplyInner| views_of(fs@) == #[trigger] reply_fields(d) implies false by {
                    lemma_reply_fields(d);
                }
            }
            return Err(e);
        },
        Ok(x) => x,
    };
    let text = match get_opt_text(fs, "text") {
        Err(e) => {
            proof {
                assert forall|d: ReplyInner| views_of(fs@) == #[trigger] reply_fields(d) implies false by {
                    lemma_reply_fields(d);
                }
            }
            return Err(e);
        },
        Ok(x) => x,
    };
    let qq = match get_opt_i64(fs, "qq") {
        Err(e) => {
            proof {
                assert forall|d: ReplyInner| views_of(fs@) == #[trigger] reply_fields(d) implies false by {
                    lemma_reply_fields(d);
                }
            }
            return Err(e);
        },
        Ok(x) => x,
    };
    let time = match get_opt_i64(fs, "time") {
        Err(e) => {
            proof {
                assert forall|d: ReplyInner| views_of(fs@) == #[trigger] reply_fields(d) implies false by {
                    lemma_reply_fields(d);
                }
            }
            return Err(e);
        },
        Ok(x) => x,
    };
    let seq = match get_opt_i64(fs, "seq") {
        Err(e) => {
            proof {
                assert forall|d: ReplyInner| views_of(fs@) == #[trigger] reply_fields(d) implies false by {
                    lemma_reply_fields(d);
                }
            }
            return Err(e);
        },
        Ok(x) => x,
    };
    let w = ReplyInner { id, text, qq, time, seq };
    let expect = reply_to_fields(&w);
    if !eq_field_lists(fs, &expect) {
        proof {
            assert forall|d: ReplyInner| views_of(fs@) == #[trigger] reply_fields(d) implies false by {
                lemma_reply_fields(d);
                assert(reply_model(w) == reply_model(d));
                lemma_reply_fields_model(w, d);
            }
        }
        return Err(DecodeError::Malformed);
    }
    proof {
        assert forall|d: ReplyInner| views_of(fs@) == #[trigger] reply_fields(d) implies reply_model(w)
            == reply_model(d) by {
            lemma_reply_fields(d);
        }
        if fields_wf(views_of(fs@)) {
            lemma_find_wf(views_of(fs@), "text"@);
        }
    }
    Ok(w)
}

pub fn reply_to_fields(d: &ReplyInner) -> (r: Vec<Field>)
    ensures
        views_of(r@) == reply_fields(*d),
{
    let mut out: Vec<Field> = Vec::new();
    proof {
        assert(views_of(out@) =~= Seq::<(Seq<char>, SpecVal)>::empty());
    }
    push_opt_i32(&mut out, "id", &d.id);
    push_opt_text(&mut out, "text", &d.text);
    push_opt_i64(&mut out, "qq", &d.qq);
    push_opt_i64(&mut out, "time", &d.time);
    push_opt_i64(&mut out, "seq", &d.seq);
    proof {
        assert(views_of(out@) =~= reply_fields(*d));
    }
    out
}

impl CQCode for Reply {
    open spec fn fixed_kind() -> CQCodeType {
        CQCodeType::Reply
    }

    open spec fn wf_spec(&self) -> bool {
        self.typ == CQCodeType::Reply && reply_wf(self.data)
    }

    open spec fn wire_spec(&self) -> Seq<char> {
        spec_message(tag_chars(CQCodeType::Reply), reply_fields(self.data))
    }

    open spec fn same_payload(&self, other: &Self) -> bool {
        self.typ == other.typ && reply_model(self.data) == reply_model(other.data)
    }

    fn cq_code(&self) -> (k: CQCodeType) {
        CQCodeType::Reply
    }

    fn from_raw_message(s: &str) -> (r: Result<Self, DecodeError>) {
        let (kind, fields) = match decode_wire(s) {
            Err(e) => {
                proof {
                    assert forall|v: Reply| v.wf_spec() && s@ == #[trigger] v.wire_spec() implies false by {
                        lemma_reply_fields(v.data);
                    }
                    assert forall|k: CQCodeType, fs: Seq<(Seq<char>, SpecVal)>|
                        fields_wf(fs) && s@ == #[trigger] spec_message(tag_chars(k), fs) && k
                            != Reply::fixed_kind() implies false by {}
                }
                return Err(e);
            },
            Ok(p) => p,
        };
        if kind != CQCodeType::Reply {
            proof {
                assert forall|v: Reply| v.wf_spec() && s@ == #[trigger] v.wire_spec() implies false by {
                    lemma_reply_fields(v.data);
                }
            }
            return Err(DecodeError::MismatchedKindTag);
        }
        match reply_from_fields(&fields) {
            Err(e) => {
                proof {
                    assert forall|v: Reply| v.wf_spec() && s@ == #[trigger] v.wire_spec() implies false by {
                        lemma_reply_fields(v.data);
                    }
                    assert forall|k: CQCodeType, fs: Seq<(Seq<char>, SpecVal)>|
                        fields_wf(fs) && s@ == #[trigger] spec_message(tag_chars(k), fs) && k
                            != Reply::fixed_kind() implies false by {}
                }
                Err(e)
            },
            Ok(data) => {
                let res = Reply { typ: kind, data };
                proof {
                    assert forall|v: Reply| v.wf_spec() && s@ == #[trigger] v.wire_spec() implies res.same_payload(&v) by {
                        lemma_reply_fields(v.data);
                    }
                    assert forall|k: CQCodeType, fs: Seq<(Seq<char>, SpecVal)>|
                        fields_wf(fs) && s@ == #[trigger] spec_message(tag_chars(k), fs) && k
                            != Reply::fixed_kind() implies false by {}
                    assert(ws_interleave(s@, res.wire_spec())) by {
                        assert(views_of(fields@) == reply_fields(data));
                    }
                }
                Ok(res)
            },
        }
    }

    fn to_raw_message(&self) -> (r: RawMessage) {
        let fields = reply_to_fields(&self.data);
        encode_wire_kind(CQCodeType::Reply, &fields)
    }
}

#[derive(Debug, Clone, PartialEq)]
pub struct PokeInner {
    pub qq: Option<i64>,
}

#[derive(Debug, Clone, PartialEq)]
pub struct Poke {
    pub typ: CQCodeType,
    pub data: PokeInner,
}

/// The ordered wire members of a `PokeInner` payload; absent optional
/// fields contribute nothing.
pub open spec fn poke_fields(d: PokeInner) -> Seq<(Seq<char>, SpecVal)> {
    opt_i64("qq"@, d.qq)
}

pub open spec fn poke_wf(d: PokeInner) -> bool {
    true
}

/// The field contents of a `PokeInner`, field for field.
pub open spec fn poke_model(d: PokeInner) -> Option<int> {
    oview_i64(d.qq)
}

/// Payloads with the same field contents have the same wire members.
pub proof fn lemma_poke_fields_model(a: PokeInner, b: PokeInner)
    requires
        poke_model(a) == poke_model(b),
    ensures
        poke_fields(a) == poke_fields(b),
{
    assert(opt_i64("qq"@, a.qq) =~= opt_i64("qq"@, b.qq));
    assert(poke_fields(a) =~= poke_fields(b));
}

#[verifier::rlimit(100)]
pub proof fn lemma_poke_fields(d: PokeInner)
    ensures
        poke_wf(d) ==> fields_wf(poke_fields(d)),
        find_val(poke_fields(d), "qq"@) == omap_i64(d.qq),
{
    lemma_names();
    if poke_wf(d) {
        lemma_wf_single_i64("qq"@, d.qq);
    }
    lemma_find_single_i64("qq"@, d.qq, "qq"@);
}

/// Reads a `PokeInner` out of a decoded member list; the list must carry
/// exactly the payload's members, in their canonical order.
#[verifier::rlimit(100)]
pub fn poke_from_fields(fs: &Vec<Field>) -> (r: Result<PokeInner, DecodeError>)
    ensures
        forall|d: PokeInner|
            views_of(fs@) == #[trigger] poke_fields(d) ==> (r matches Ok(w) && poke_model(w)
                == poke_model(d)),
        r matches Ok(w) ==> views_of(fs@) == poke_fields(w),
        r matches Ok(w) ==> (fields_wf(views_of(fs@)) ==> poke_wf(w)),
{
    let qq = match get_opt_i64(fs, "qq") {
        Err(e) => {
            proof {
                assert forall|d: PokeInner| views_of(fs@) == #[trigger] poke_fields(d) implies false by {
                    lemma_poke_fields(d);
                }
            }
            return Err(e);
        },
        Ok(x) => x,
    };
    let w = PokeInner { qq };
    let expect = poke_to_fields(&w);
    if !eq_field_lists(fs, &expect) {
        proof {
            assert forall|d: PokeInner| views_of(fs@) == #[trigger] poke_fields(d) implies false by {
                lemma_poke_fields(d);
                assert(poke_model(w) == poke_model(d));
                lemma_poke_fields_model(w, d);
            }
        }
        return Err(DecodeError::Malformed);
    }
    proof {
        assert forall|d: PokeInner| views_of(fs@) == #[trigger] poke_fields(d) implies poke_model(w)
            == poke_model(d) by {
            lemma_poke_fields(d);
        }
        if fields_wf(views_of(fs@)) {

        }
    }
    Ok(w)
}

pub fn poke_to_fields(d: &PokeInner) -> (r: Vec<Field>)
    ensures
        views_of(r@) == poke_fields(*d),
{
    let mut out: Vec<Field> = Vec::new();
    proof {
        assert(views_of(out@) =~= Seq::<(Seq<char>, SpecVal)>::empty());
    }
    push_opt_i64(&mut out, "qq", &d.qq);
    proof {
        assert(views_of(out@) =~= poke_fields(*d));
    }
    out
}

impl CQCode for Poke {
    open spec fn fixed_kind() -> CQCodeType {
        CQCodeType::Poke
    }

    open spec fn wf_spec(&self) -> bool {
        self.typ == CQCodeType::Poke && poke_wf(self.data)
    }

    open spec fn wire_spec(&self) -> Seq<char> {
        spec_message(tag_chars(CQCodeType::Poke), poke_fields(self.data))
    }

    open spec fn same_payload(&self, other: &Self) -> bool {
        self.typ == other.typ && poke_model(self.data) == poke_model(other.data)
    }

    fn cq_code(&self) -> (k: CQCodeType) {
        CQCodeType::Poke
    }

    fn from_raw_message(s: &str) -> (r: Result<Self, DecodeError>) {
        let (kind, fields) = match decode_wire(s) {
            Err(e) => {
                proof {
                    assert forall|v: Poke| v.wf_spec() && s@ == #[trigger] v.wire_spec() implies false by {
                        lemma_poke_fields(v.data);
                    }
                    assert forall|k: CQCodeType, fs: Seq<(Seq<char>, SpecVal)>|
                        fields_wf(fs) && s@ == #[trigger] spec_message(tag_chars(k), fs) && k
                            != Poke::fixed_kind() implies false by {}
                }
                return Err(e);
            },
            Ok(p) => p,
        };
        if kind != CQCodeType::Poke {
            proof {
                assert forall|v: Poke| v.wf_spec() && s@ == #[trigger] v.wire_spec() implies false by {
                    lemma_poke_fields(v.data);
                }
            }
            return Err(DecodeError::MismatchedKindTag);
        }
        match poke_from_fields(&fields) {
            Err(e) => {
                proof {
                    assert forall|v: Poke| v.wf_spec() && s@ == #[trigger] v.wire_spec() implies false by {
                        lemma_poke_fields(v.data);
                    }
                    assert forall|k: CQCodeType, fs: Seq<(Seq<char>, SpecVal)>|
                        fields_wf(fs) && s@ == #[trigger] spec_message(tag_chars(k), fs) && k
                            != Poke::fixed_kind() implies false by {}
                }
                Err(e)
            },
            Ok(data) => {
                let res = Poke { typ: kind, data };
                proof {
                    assert forall|v: Poke| v.wf_spec() && s@ == #[trigger] v.wire_spec() implies res.same_payload(&v) by {
                        lemma_poke_fields(v.data);
                    }
                    assert forall|k: CQCodeType, fs: Seq<(Seq<char>, SpecVal)>|
                        fields_wf(fs) && s@ == #[trigger] spec_message(tag_chars(k), fs) && k
                            != Poke::fixed_kind() implies false by {}
                    assert(ws_interleave(s@, res.wire_spec())) by {
                        assert(views_of(fields@) == poke_fields(data));
                    }
                }
                Ok(res)
            },
        }
    }

    fn to_raw_message(&self) -> (r: RawMessage) {
        let fields = poke_to_fields(&self.data);
        encode_wire_kind(CQCodeType::Poke, &fields)
    }
}

#[derive(Debug, Clone, PartialEq)]
pub struct ForwardInner {
    pub id: Option<String>,
}

#[derive(Debug, Clone, PartialEq)]
pub struct Forward {
    pub typ: CQCodeType,
    pub data: ForwardInner,
}

/// The ordered wire members of a `ForwardInner` payload; absent optional
/// fields contribute nothing.
pub open spec fn forward_fields(d: ForwardInner) -> Seq<(Seq<char>, SpecVal)> {
    opt_s("id"@, d.id)
}

pub open spec fn forward_wf(d: ForwardInner) -> bool {
    ostr_wf(d.id)
}

/// The field contents of a `ForwardInner`, field for field.
pub open spec fn forward_model(d: ForwardInner) -> Option<Seq<char>> {
    oview_s(d.id)
}

/// Payloads with the same field contents have the same wire members.
pub proof fn lemma_forward_fields_model(a: ForwardInner, b: ForwardInner)
    requires
        forward_model(a) == forward_model(b),
    ensures
        forward_fields(a) == forward_fields(b),
{
    assert(opt_s("id"@, a.id) =~= opt_s("id"@, b.id));
    assert(forward_fields(a) =~= forward_fields(b));
}

#[verifier::rlimit(100)]
pub proof fn lemma_forward_fields(d: ForwardInner)
    ensures
        forward_wf(d) ==> fields_wf(forward_fields(d)),
        find_val(forward_fields(d), "id"@) == omap_s(d.id),
{
    lemma_names();
    if forward_wf(d) {
        lemma_wf_single_s("id"@, d.id);
    }
    lemma_find_single_s("id"@, d.id, "id"@);
}

/// Reads a `ForwardInner` out of a decoded member list; the list must carry
/// exactly the payload's members, in their canonical order.
#[verifier::rlimit(100)]
pub fn forward_from_fields(fs: &Vec<Field>) -> (r: Result<ForwardInner, DecodeError>)
    ensures
        forall|d: ForwardInner|
            views_of(fs@) == #[trigger] forward_fields(d) ==> (r matches Ok(w) && forward_model(w)
                == forward_model(d)),
        r matches Ok(w) ==> views_of(fs@) == forward_fields(w),
        r matches Ok(w) ==> (fields_wf(views_of(fs@)) ==> forward_wf(w)),
{
    let id = match get_opt_text(fs, "id") {
        Err(e) => {
            proof {
                assert forall|d: ForwardInner| views_of(fs@) == #[trigger] forward_fields(d) implies false by {
                    lemma_forward_fields(d);
                }
            }
            return Err(e);
        },
        Ok(x) => x,
    };
    let w = ForwardInner { id };
    let expect = forward_to_fields(&w);
    if !eq_field_lists(fs, &expect) {
        proof {
            assert forall|d: ForwardInner| views_of(fs@) == #[trigger] forward_fields(d) implies false by {
                lemma_forward_fields(d);
                assert(forward_model(w) == forward_model(d));
                lemma_forward_fields_model(w, d);
            }
        }
        return Err(DecodeError::Malformed);
    }
    proof {
        assert forall|d: ForwardInner| views_of(fs@) == #[trigger] forward_fields(d) implies forward_model(w)
            == forward_model(d) by {
            lemma_forward_fields(d);
        }
        if fields_wf(views_of(fs@)) {
            lemma_find_wf(views_of(fs@), "id"@);
        }
    }
    Ok(w)
}

pub fn forward_to_fields(d: &ForwardInner) -> (r: Vec<Field>)
    ensures
        views_of(r@) == forward_fields(*d),
{
    let mut out: Vec<Field> = Vec::new();
    proof {
        assert(views_of(out@) =~= Seq::<(Seq<char>, SpecVal)>::empty());
    }
    push_opt_text(&mut out, "id", &d.id);
    proof {
        assert(views_of(out@) =~= forward_fields(*d));
    }
    out
}

impl CQCode for Forward {
    open spec fn fixed_kind() -> CQCodeType {
        CQCodeType::Forward
    }

    open spec fn wf_spec(&self) -> bool {
        self.typ == CQCodeType::Forward && forward_wf(self.data)
    }

    open spec fn wire_spec(&self) -> Seq<char> {
        spec_message(tag_chars(CQCodeType::Forward), forward_fields(self.data))
    }

    open spec fn same_payload(&self, other: &Self) -> bool {
        self.typ == other.typ && forward_model(self.data) == forward_model(other.data)
    }

    fn cq_code(&self) -> (k: CQCodeType) {
        CQCodeType::Forward
    }

    fn from_raw_message(s: &str) -> (r: Result<Self, DecodeError>) {
        let (kind, fields) = match decode_wire(s) {
            Err(e) => {
                proof {
                    assert forall|v: Forward| v.wf_spec() && s@ == #[trigger] v.wire_spec() implies false by {
                        lemma_forward_fields(v.data);
                    }
                    assert forall|k: CQCodeType, fs: Seq<(Seq<char>, SpecVal)>|
                        fields_wf(fs) && s@ == #[trigger] spec_message(tag_chars(k), fs) && k
                            != Forward::fixed_kind() implies false by {}
                }
                return Err(e);
            },
            Ok(p) => p,
        };
        if kind != CQCodeType::Forward {
            proof {
                assert forall|v: Forward| v.wf_spec() && s@ == #[trigger] v.wire_spec() implies false by {
                    lemma_forward_fields(v.data);
                }
            }
            return Err(DecodeError::MismatchedKindTag);
        }
        match forward_from_fields(&fields) {
            Err(e) => {
                proof {
                    assert forall|v: Forward| v.wf_spec() && s@ == #[trigger] v.wire_spec() implies false by {
                        lemma_forward_fields(v.data);
                    }
                    assert forall|k: CQCodeType, fs: Seq<(Seq<char>, SpecVal)>|
                        fields_wf(fs) && s@ == #[trigger] spec_message(tag_chars(k), fs) && k
                            != Forward::fixed_kind() implies false by {}
                }
                Err(e)
            },
            Ok(data) => {
                let res = Forward { typ: kind, data };
                proof {
                    assert forall|v: Forward| v.wf_spec() && s@ == #[trigger] v.wire_spec() implies res.same_payload(&v) by {
                        lemma_forward_fields(v.data);
                    }
                    assert forall|k: CQCodeType, fs: Seq<(Seq<char>, SpecVal)>|
                        fields_wf(fs) && s@ == #[trigger] spec_message(tag_chars(k), fs) && k
                            != Forward::fixed_kind() implies false by {}
                    assert(ws_interleave(s@, res.wire_spec())) by {
                        assert(views_of(fields@) == forward_fields(data));
                    }
                }
                Ok(res)
            },
        }
    }

    fn to_raw_message(&self) -> (r: RawMessage) {
        let fields = forward_to_fields(&self.data);
        encode_wire_kind(CQCodeType::Forward, &fields)
    }
}

#[derive(Debug, Clone, PartialEq)]
pub struct XmlInner {
    pub data: Option<String>,
    pub resid: Option<i32>,
}

#[derive(Debug, Clone, PartialEq)]
pub struct Xml {
    pub typ: CQCodeType,
    pub data: XmlInner,
}

/// The ordered wire members of a `XmlInner` payload; absent optional
/// fields contribute nothing.
pub open spec fn xml_fields(d: XmlInner) -> Seq<(Seq<char>, SpecVal)> {
    opt_s("data"@, d.data) + opt_i32("resid"@, d.resid)
}

pub open spec fn xml_wf(d: XmlInner) -> bool {
    ostr_wf(d.data)
}

/// The field contents of a `XmlInner`, field for field.
pub open spec fn xml_model(d: XmlInner) -> (Option<Seq<char>>, Option<int>) {
    (oview_s(d.data), oview_i32(d.resid))
}

/// Payloads with the same field contents have the same wire members.
pub proof fn lemma_xml_fields_model(a: XmlInner, b: XmlInner)
    requires
        xml_model(a) == xml_model(b),
    ensures
        xml_fields(a) == xml_fields(b),
{
    assert(opt_s("data"@, a.data) =~= opt_s("data"@, b.data));
    assert(opt_i32("resid"@, a.resid) =~= opt_i32("resid"@, b.resid));
    assert(xml_fields(a) =~= xml_fields(b));
}

#[verifier::rlimit(100)]
pub proof fn lemma_xml_fields(d: XmlInner)
    ensures
        xml_wf(d) ==> fields_wf(xml_fields(d)),
        find_val(xml_fields(d), "data"@) == omap_s(d.data),
        find_val(xml_fields(d), "resid"@) == omap_i32(d.resid),
{
    lemma_names();
    if xml_wf(d) {
        lemma_wf_single_s("data"@, d.data);
        lemma_wf_single_i32("resid"@, d.resid);
        lemma_wf_concat(opt_s("data"@, d.data), opt_i32("resid"@, d.resid));
    }
    lemma_find_concat2(opt_s("data"@, d.data), opt_i32("resid"@, d.resid), "data"@);
    lemma_find_concat2(opt_s("data"@, d.data), opt_i32("resid"@, d.resid), "resid"@);
    lemma_find_single_s("data"@, d.data, "data"@);
    lemma_find_single_s("data"@, d.data, "resid"@);
    lemma_find_single_i32("resid"@, d.resid, "data"@);
    lemma_find_single_i32("resid"@, d.resid, "resid"@);
}

/// Reads a `XmlInner` out of a decoded member list; the list must carry
/// exactly the payload's members, in their canonical order.
#[verifier::rlimit(100)]
pub fn xml_from_fields(fs: &Vec<Field>) -> (r: Result<XmlInner, DecodeError>)
    ensures
        forall|d: XmlInner|
            views_of(fs@) == #[trigger] xml_fields(d) ==> (r matches Ok(w) && xml_model(w)
                == xml_model(d)),
        r matches Ok(w) ==> views_of(fs@) == xml_fields(w),
        r matches Ok(w) ==> (fields_wf(views_of(fs@)) ==> xml_wf(w)),
{
    let data = match get_opt_text(fs, "data") {
        Err(e) => {
            proof {
                assert forall|d: XmlInner| views_of(fs@) == #[trigger] xml_fields(d) implies false by {
                    lemma_xml_fields(d);
                }
            }
            return Err(e);
        },
        Ok(x) => x,
    };
    let resid = match get_opt_i32(fs, "resid") {
        Err(e) => {
            proof {
                assert forall|d: XmlInner| views_of(fs@) == #[trigger] xml_fields(d) implies false by {
                    lemma_xml_fields(d);
                }
            }
            return Err(e);
        },
        Ok(x) => x,
    };
    let w = XmlInner { data, resid };
    let expect = xml_to_fields(&w);
    if !eq_field_lists(fs, &expect) {
        proof {
            assert forall|d: XmlInner| views_of(fs@) == #[trigger] xml_fields(d) implies false by {
                lemma_xml_fields(d);
                assert(xml_model(w) == xml_model(d));
                lemma_xml_fields_model(w, d);
            }
        }
        return Err(DecodeError::Malformed);
    }
    proof {
        assert forall|d: XmlInner| views_of(fs@) == #[trigger] xml_fields(d) implies xml_model(w)
            == xml_model(d) by {
            lemma_xml_fields(d);
        }
        if fields_wf(views_of(fs@)) {
            lemma_find_wf(views_of(fs@), "data"@);
        }
    }
    Ok(w)
}

pub fn xml_to_fields(d: &XmlInner) -> (r: Vec<Field>)
    ensures
        views_of(r@) == xml_fields(*d),
{
    let mut out: Vec<Field> = Vec::new();
    proof {
        assert(views_of(out@) =~= Seq::<(Seq<char>, SpecVal)>::empty());
    }
    push_opt_text(&mut out, "data", &d.data);
    push_opt_i32(&mut out, "resid", &d.resid);
    proof {
        assert(views_of(out@) =~= xml_fields(*d));
    }
    out
}

impl CQCode for Xml {
    open spec fn fixed_kind() -> CQCodeType {
        CQCodeType::Xml
    }

    open spec fn wf_spec(&self) -> bool {
        self.typ == CQCodeType::Xml && xml_wf(self.data)
    }

    open spec fn wire_spec(&self) -> Seq<char> {
        spec_message(tag_chars(CQCodeType::Xml), xml_fields(self.data))
    }

    open spec fn same_payload(&self, other: &Self) -> bool {
        self.typ == other.typ && xml_model(self.data) == xml_model(other.data)
    }

    fn cq_code(&self) -> (k: CQCodeType) {
        CQCodeType::Xml
    }

    fn from_raw_message(s: &str) -> (r: Result<Self, DecodeError>) {
        let (kind, fields) = match decode_wire(s) {
            Err(e) => {
                proof {
                    assert forall|v: Xml| v.wf_spec() && s@ == #[trigger] v.wire_spec() implies false by {
                        lemma_xml_fields(v.data);
                    }
                    assert forall|k: CQCodeType, fs: Seq<(Seq<char>, SpecVal)>|
                        fields_wf(fs) && s@ == #[trigger] spec_message(tag_chars(k), fs) && k
                            != Xml::fixed_kind() implies false by {}
                }
                return Err(e);
            },
            Ok(p) => p,
        };
        if kind != CQCodeType::Xml {
            proof {
                assert forall|v: Xml| v.wf_spec() && s@ == #[trigger] v.wire_spec() implies false by {
                    lemma_xml_fields(v.data);
                }
            }
            return Err(DecodeError::MismatchedKindTag);
        }
        match xml_from_fields(&fields) {
            Err(e) => {
                proof {
                    assert forall|v: Xml| v.wf_spec() && s@ == #[trigger] v.wire_spec() implies false by {
                        lemma_xml_fields(v.data);
                    }
                    assert forall|k: CQCodeType, fs: Seq<(Seq<char>, SpecVal)>|
                        fields_wf(fs) && s@ == #[trigger] spec_message(tag_chars(k), fs) && k
                            != Xml::fixed_kind() implies false by {}
                }
                Err(e)
            },
            Ok(data) => {
                let res = Xml { typ: kind, data };
                proof {
                    assert forall|v: Xml| v.wf_spec() && s@ == #[trigger] v.wire_spec() implies res.same_payload(&v) by {
                        lemma_xml_fields(v.data);
                    }
                    assert forall|k: CQCodeType, fs: Seq<(Seq<char>, SpecVal)>|
                        fields_wf(fs) && s@ == #[trigger] spec_message(tag_chars(k), fs) && k
                            != Xml::fixed_kind() implies false by {}
                    assert(ws_interleave(s@, res.wire_spec())) by {
                        assert(views_of(fields@) == xml_fields(data));
                    }
                }
                Ok(res)
            },
        }
    }

    fn to_raw_message(&self) -> (r: RawMessage) {
        let fields = xml_to_fields(&self.data);
        encode_wire_kind(CQCodeType::Xml, &fields)
    }
}

#[derive(Debug, Clone, PartialEq)]
pub struct TtsInner {
    pub text: Option<String>,
}

#[derive(Debug, Clone, PartialEq)]
pub struct Tts {
    pub typ: CQCodeType,
    pub data: TtsInner,
}

/// The ordered wire members of a `TtsInner` payload; absent optional
/// fields contribute nothing.
pub open spec fn tts_fields(d: TtsInner) -> Seq<(Seq<char>, SpecVal)> {
    opt_s("text"@, d.text)
}

pub open spec fn tts_wf(d: TtsInner) -> bool {
    ostr_wf(d.text)
}

/// The field contents of a `TtsInner`, field for field.
pub open spec fn tts_model(d: TtsInner) -> Option<Seq<char>> {
    oview_s(d.text)
}

/// Payloads with the same field contents have the same wire members.
pub proof fn lemma_tts_fields_model(a: TtsInner, b: TtsInner)
    requires
        tts_model(a) == tts_model(b),
    ensures
        tts_fields(a) == tts_fields(b),
{
    assert(opt_s("text"@, a.text) =~= opt_s("text"@, b.text));
    assert(tts_fields(a) =~= tts_fields(b));
}

#[verifier::rlimit(100)]
pub proof fn lemma_tts_fields(d: TtsInner)
    ensures
        tts_wf(d) ==> fields_wf(tts_fields(d)),
        find_val(tts_fields(d), "text"@) == omap_s(d.text),
{
    lemma_names();
    if tts_wf(d) {
        lemma_wf_single_s("text"@, d.text);
    }
    lemma_find_single_s("text"@, d.text, "text"@);
}

/// Reads a `TtsInner` out of a decoded member list; the list must carry
/// exactly the payload's members, in their canonical order.
#[verifier::rlimit(100)]
pub fn tts_from_fields(fs: &Vec<Field>) -> (r: Result<TtsInner, DecodeError>)
    ensures
        forall|d: TtsInner|
            views_of(fs@) == #[trigger] tts_fields(d) ==> (r matches Ok(w) && tts_model(w)
                == tts_model(d)),
        r matches Ok(w) ==> views_of(fs@) == tts_fields(w),
        r matches Ok(w) ==> (fields_wf(views_of(fs@)) ==> tts_wf(w)),
{
    let text = match get_opt_text(fs, "text") {
        Err(e) => {
            proof {
                assert forall|d: TtsInner| views_of(fs@) == #[trigger] tts_fields(d) implies false by {
                    lemma_tts_fields(d);
                }
            }
            return Err(e);
        },
        Ok(x) => x,
    };
    let w = TtsInner { text };
    let expect = tts_to_fields(&w);
    if !eq_field_lists(fs, &expect) {
        proof {
            assert forall|d: TtsInner| views_of(fs@) == #[trigger] tts_fields(d) implies false by {
                lemma_tts_fields(d);
                assert(tts_model(w) == tts_model(d));
                lemma_tts_fields_model(w, d);
            }
        }
        return Err(DecodeError::Malformed);
    }
    proof {
        assert forall|d: TtsInner| views_of(fs@) == #[trigger] tts_fields(d) implies tts_model(w)
            == tts_model(d) by {
            lemma_tts_fields(d);
        }
        if fields_wf(views_of(fs@)) {
            lemma_find_wf(views_of(fs@), "text"@);
        }
    }
    Ok(w)
}

pub fn tts_to_fields(d: &TtsInner) -> (r: Vec<Field>)
    ensures
        views_of(r@) == tts_fields(*d),
{
    let mut out: Vec<Field> = Vec::new();
    proof {
        assert(views_of(out@) =~= Seq::<(Seq<char>, SpecVal)>::empty());
    }
    push_opt_text(&mut out, "text", &d.text);
    proof {
        assert(views_of(out@) =~= tts_fields(*d));
    }
    out
}

impl CQCode for Tts {
    open spec fn fixed_kind() -> CQCodeType {
        CQCodeType::Tts
    }

    open spec fn wf_spec(&self) -> bool {
        self.typ == CQCodeType::Tts && tts_wf(self.data)
    }

    open spec fn wire_spec(&self) -> Seq<char> {
        spec_message(tag_chars(CQCodeType::Tts), tts_fields(self.data))
    }

    open spec fn same_payload(&self, other: &Self) -> bool {
        self.typ == other.typ && tts_model(self.data) == tts_model(other.data)
    }

    fn cq_code(&self) -> (k: CQCodeType) {
        CQCodeType::Tts
    }

    fn from_raw_message(s: &str) -> (r: Result<Self, DecodeError>) {
        let (kind, fields) = match decode_wire(s) {
            Err(e) => {
                proof {
                    assert forall|v: Tts| v.wf_spec() && s@ == #[trigger] v.wire_spec() implies false by {
                        lemma_tts_fields(v.data);
                    }
                    assert forall|k: CQCodeType, fs: Seq<(Seq<char>, SpecVal)>|
                        fields_wf(fs) && s@ == #[trigger] spec_message(tag_chars(k), fs) && k
                            != Tts::fixed_kind() implies false by {}
                }
                return Err(e);
            },
            Ok(p) => p,
        };
        if kind != CQCodeType::Tts {
            proof {
                assert forall|v: Tts| v.wf_spec() && s@ == #[trigger] v.wire_spec() implies false by {
                    lemma_tts_fields(v.data);
                }
            }
            return Err(DecodeError::MismatchedKindTag);
        }
        match tts_from_fields(&fields) {
            Err(e) => {
                proof {
                    assert forall|v: Tts| v.wf_spec() && s@ == #[trigger] v.wire_spec() implies false by {
                        lemma_tts_fields(v.data);
                    }
                    assert forall|k: CQCodeType, fs: Seq<(Seq<char>, SpecVal)>|
                        fields_wf(fs) && s@ == #[trigger] spec_message(tag_chars(k), fs) && k
                            != Tts::fixed_kind() implies false by {}
                }
                Err(e)
            },
            Ok(data) => {
                let res = Tts { typ: kind, data };
                proof {
                    assert forall|v: Tts| v.wf_spec() && s@ == #[trigger] v.wire_spec() implies res.same_payload(&v) by {
                        lemma_tts_fields(v.data);
                    }
                    assert forall|k: CQCodeType, fs: Seq<(Seq<char>, SpecVal)>|
                        fields_wf(fs) && s@ == #[trigger] spec_message(tag_chars(k), fs) && k
                            != Tts::fixed_kind() implies false by {}
                    assert(ws_interleave(s@, res.wire_spec())) by {
                        assert(views_of(fields@) == tts_fields(data));
                    }
                }
                Ok(res)
            },
        }
    }

    fn to_raw_message(&self) -> (r: RawMessage) {
        let fields = tts_to_fields(&self.data);
        encode_wire_kind(CQCodeType::Tts, &fields)
    }
}

#[derive(Debug, Clone, PartialEq)]
pub struct JsonInner {
    pub data: Option<String>,
    pub resid: Option<String>,
}

#[derive(Debug, Clone, PartialEq)]
pub struct Json {
    pub typ: CQCodeType,
    pub data: JsonInner,
}

/// The ordered wire members of a `JsonInner` payload; absent optional
/// fields contribute nothing.
pub open spec fn json_fields(d: JsonInner) -> Seq<(Seq<char>, SpecVal)> {
    opt_s("data"@, d.data) + opt_s("resid"@, d.resid)
}

pub open spec fn json_wf(d: JsonInner) -> bool {
    ostr_wf(d.data) && ostr_wf(d.resid)
}

/// The field contents of a `JsonInner`, field for field.
pub open spec fn json_model(d: JsonInner) -> (Option<Seq<char>>, Option<Seq<char>>) {
    (oview_s(d.data), oview_s(d.resid))
}

/// Payloads with the same field contents have the same wire members.
pub proof fn lemma_json_fields_model(a: JsonInner, b: JsonInner)
    requires
        json_model(a) == json_model(b),
    ensures
        json_fields(a) == json_fields(b),
{
    assert(opt_s("data"@, a.data) =~= opt_s("data"@, b.data));
    assert(opt_s("resid"@, a.resid) =~= opt_s("resid"@, b.resid));
    assert(json_fields(a) =~= json_fields(b));
}

#[verifier::rlimit(100)]
pub proof fn lemma_json_fields(d: JsonInner)
    ensures
        json_wf(d) ==> fields_wf(json_fields(d)),
        find_val(json_fields(d), "data"@) == omap_s(d.data),
        find_val(json_fields(d), "resid"@) == omap_s(d.resid),
{
    lemma_names();
    if json_wf(d) {
        lemma_wf_single_s("data"@, d.data);
        lemma_wf_single_s("resid"@, d.resid);
        lemma_wf_concat(opt_s("data"@, d.data), opt_s("resid"@, d.resid));
    }
    lemma_find_concat2(opt_s("data"@, d.data), opt_s("resid"@, d.resid), "data"@);
    lemma_find_concat2(opt_s("data"@, d.data), opt_s("resid"@, d.resid), "resid"@);
    lemma_find_single_s("data"@, d.data, "data"@);
    lemma_find_single_s("data"@, d.data, "resid"@);
    lemma_find_single_s("resid"@, d.resid, "data"@);
    lemma_find_single_s("resid"@, d.resid, "resid"@);
}

/// Reads a `JsonInner` out of a decoded member list; the list must carry
/// exactly the payload's members, in their canonical order.
#[verifier::rlimit(100)]
pub fn json_from_fields(fs: &Vec<Field>) -> (r: Result<JsonInner, DecodeError>)
    ensures
        forall|d: JsonInner|
            views_of(fs@) == #[trigger] json_fields(d) ==> (r matches Ok(w) && json_model(w)
                == json_model(d)),
        r matches Ok(w) ==> views_of(fs@) == json_fields(w),
        r matches Ok(w) ==> (fields_wf(views_of(fs@)) ==> json_wf(w)),
{
    let data = match get_opt_text(fs, "data") {
        Err(e) => {
            proof {
                assert forall|d: JsonInner| views_of(fs@) == #[trigger] json_fields(d) implies false by {
                    lemma_json_fields(d);
                }
            }
            return Err(e);
        },
        Ok(x) => x,
    };
    let resid = match get_opt_text(fs, "resid") {
        Err(e) => {
            proof {
                assert forall|d: JsonInner| views_of(fs@) == #[trigger] json_fields(d) implies false by {
                    lemma_json_fields(d);
                }
            }
            return Err(e);
        },
        Ok(x) => x,
    };
    let w = JsonInner { data, resid };
    let expect = json_to_fields(&w);
    if !eq_field_lists(fs, &expect) {
        proof {
            assert forall|d: JsonInner| views_of(fs@) == #[trigger] json_fields(d) implies false by {
                lemma_json_fields(d);
                assert(json_model(w) == json_model(d));
                lemma_json_fields_model(w, d);
            }
        }
        return Err(DecodeError::Malformed);
    }
    proof {
        assert forall|d: JsonInner| views_of(fs@) == #[trigger] json_fields(d) implies json_model(w)
            == json_model(d) by {
            lemma_json_fields(d);
        }
        if fields_wf(views_of(fs@)) {
            lemma_find_wf(views_of(fs@), "data"@);
            lemma_find_wf(views_of(fs@), "resid"@);
        }
    }
    Ok(w)
}

pub fn json_to_fields(d: &JsonInner) -> (r: Vec<Field>)
    ensures
        views_of(r@) == json_fields(*d),
{
    let mut out: Vec<Field> = Vec::new();
    proof {
        assert(views_of(out@) =~= Seq::<(Seq<char>, SpecVal)>::empty());
    }
    push_opt_text(&mut out, "data", &d.data);
    push_opt_text(&mut out, "resid", &d.resid);
    proof {
        assert(views_of(out@) =~= json_fields(*d));
    }
    out
}

impl CQCode for Json {
    open spec fn fixed_kind() -> CQCodeType {
        CQCodeType::Json
    }

    open spec fn wf_spec(&self) -> bool {
        self.typ == CQCodeType::Json && json_wf(self.data)
    }

    open spec fn wire_spec(&self) -> Seq<char> {
        spec_message(tag_chars(CQCodeType::Json), json_fields(self.data))
    }

    open spec fn same_payload(&self, other: &Self) -> bool {
        self.typ == other.typ && json_model(self.data) == json_model(other.data)
    }

    fn cq_code(&self) -> (k: CQCodeType) {
        CQCodeType::Json
    }

    fn from_raw_message(s: &str) -> (r: Result<Self, DecodeError>) {
        let (kind, fields) = match decode_wire(s) {
            Err(e) => {
                proof {
                    assert forall|v: Json| v.wf_spec() && s@ == #[trigger] v.wire_spec() implies false by {
                        lemma_json_fields(v.data);
                    }
                    assert forall|k: CQCodeType, fs: Seq<(Seq<char>, SpecVal)>|
                        fields_wf(fs) && s@ == #[trigger] spec_message(tag_chars(k), fs) && k
                            != Json::fixed_kind() implies false by {}
                }
                return Err(e);
            },
            Ok(p) => p,
        };
        if kind != CQCodeType::Json {
            proof {
                assert forall|v: Json| v.wf_spec() && s@ == #[trigger] v.wire_spec() implies false by {
                    lemma_json_fields(v.data);
                }
            }
            return Err(DecodeError::MismatchedKindTag);
        }
        match json_from_fields(&fields) {
            Err(e) => {
                proof {
                    assert forall|v: Json| v.wf_spec() && s@ == #[trigger] v.wire_spec() implies false by {
                        lemma_json_fields(v.data);
                    }
                    assert forall|k: CQCodeType, fs: Seq<(Seq<char>, SpecVal)>|
                        fields_wf(fs) && s@ == #[trigger] spec_message(tag_chars(k), fs) && k
                            != Json::fixed_kind() implies false by {}
                }
                Err(e)
            },
            Ok(data) => {
                let res = Json { typ: kind, data };
                proof {
                    assert forall|v: Json| v.wf_spec() && s@ == #[trigger] v.wire_spec() implies res.same_payload(&v) by {
                        lemma_json_fields(v.data);
                    }
                    assert forall|k: CQCodeType, fs: Seq<(Seq<char>, SpecVal)>|
                        fields_wf(fs) && s@ == #[trigger] spec_message(tag_chars(k), fs) && k
                            != Json::fixed_kind() implies false by {}
                    assert(ws_interleave(s@, res.wire_spec())) by {
                        assert(views_of(fields@) == json_fields(data));
                    }
                }
                Ok(res)
            },
        }
    }

    fn to_raw_message(&self) -> (r: RawMessage) {
        let fields = json_to_fields(&self.data);
        encode_wire_kind(CQCodeType::Json, &fields)
    }
}

impl Face {
    /// Builds a face segment from its identifier.
    pub fn from_string(value: String) -> (r: Face)
        ensures
            r.typ == CQCodeType::Face,
            r.data.id == value,
    {
        Face { typ: CQCodeType::Face, data: FaceInner { id: value } }
    }
}

pub proof fn lemma_find_none_no_member(fs: Seq<(Seq<char>, SpecVal)>, name: Seq<char>)
    requires
        find_val(fs, name) is None,
    ensures
        forall|i: int| 0 <= i < fs.len() ==> (#[trigger] fs[i]).0 != name,
    decreases fs.len(),
{
    if fs.len() > 0 {
        lemma_find_none_no_member(fs.skip(1), name);
        assert forall|i: int| 0 <= i < fs.len() implies (#[trigger] fs[i]).0 != name by {
            if i > 0 {
                assert(fs[i] == fs.skip(1)[i - 1]);
            }
        }
    }
}

/// Optional omission: a voice payload with no file value contributes no
/// member named "file" to its wire data object at all.
pub proof fn lemma_absent_optional_omitted(d: VoiceInner)
    requires
        d.file is None,
    ensures
        forall|i: int|
            0 <= i < voice_fields(d).len() ==> (#[trigger] voice_fields(d)[i]).0 != "file"@,
{
    lemma_voice_fields(d);
    lemma_find_none_no_member(voice_fields(d), "file"@);
}

} // verus!
