//! The segment kind taxonomy, the error taxonomy, and the segment
//! capability contract: every segment type reports its kind, decodes from
//! wire text and encodes back to it, and canonical encodings round-trip.
use vstd::prelude::*;

use crate::wire::{
    fields_prefix_at, fields_wf, quote_prefix_at, spec_fields, spec_message, spec_quote, str_wf,
    views_of, char_ok, is_ws_char, Field, SpecVal, encode_wire, eq_chars_str, parse_fields,
    parse_string, skip_ws, str_to_chars, lemma_prefix_shift, lemma_message_interleave,
    ws_interleave,
};

verus! {

/// Wire text of one message or one segment.
pub type RawMessage = String;

/// The closed set of segment kinds.
#[derive(Debug, Clone, Copy, PartialEq, Eq, Structural)]
pub enum CQCodeType {
    Text,
    Face,
    Record,
    Video,
    At,
    Share,
    Music,
    Image,
    Reply,
    Poke,
    Forward,
    Node,
    Xml,
    Json,
    Tts,
}

/// Why a wire text failed to decode.
#[derive(Debug, Clone, Copy, PartialEq, Eq, Structural)]
pub enum DecodeError {
    /// The outer container is not valid structural text.
    Malformed,
    /// A required field is absent.
    MissingRequiredField,
    /// A field holds a value of the wrong type.
    WrongFieldType,
    /// The kind tag is not one of the known tags.
    UnknownKindTag,
    /// The kind tag names a kind other than the decoded payload type's.
    MismatchedKindTag,
}

/// The fixed wire token of each kind.
pub open spec fn tag_chars(k: CQCodeType) -> Seq<char> {
    match k {
        CQCodeType::Text => "text"@,
        CQCodeType::Face => "face"@,
        CQCodeType::Record => "record"@,
        CQCodeType::Video => "video"@,
        CQCodeType::At => "at"@,
        CQCodeType::Share => "share"@,
        CQCodeType::Music => "music"@,
        CQCodeType::Image => "image"@,
        CQCodeType::Reply => "reply"@,
        CQCodeType::Poke => "poke"@,
        CQCodeType::Forward => "forward"@,
        CQCodeType::Node => "node"@,
        CQCodeType::Xml => "xml"@,
        CQCodeType::Json => "json"@,
        CQCodeType::Tts => "tts"@,
    }
}

pub proof fn lemma_tag_wf(k: CQCodeType)
    ensures
        str_wf(tag_chars(k)),
{
    reveal_strlit("text");
    reveal_strlit("face");
    reveal_strlit("record");
    reveal_strlit("video");
    reveal_strlit("at");
    reveal_strlit("share");
    reveal_strlit("music");
    reveal_strlit("image");
    reveal_strlit("reply");
    reveal_strlit("poke");
    reveal_strlit("forward");
    reveal_strlit("node");
    reveal_strlit("xml");
    reveal_strlit("json");
    reveal_strlit("tts");
    assert forall|i: int| 0 <= i < tag_chars(k).len() implies char_ok(#[trigger] tag_chars(k)[i])
        by {}
}

pub proof fn lemma_key_wf()
    ensures
        str_wf("type"@),
        str_wf("data"@),
{
    reveal_strlit("type");
    reveal_strlit("data");
    assert forall|i: int| 0 <= i < "type"@.len() implies char_ok(#[trigger] "type"@[i]) by {}
    assert forall|i: int| 0 <= i < "data"@.len() implies char_ok(#[trigger] "data"@[i]) by {}
}

/// No two kinds share a wire tag: the tags differ in length or in their
/// first character.
pub proof fn lemma_tag_distinct(k1: CQCodeType, k2: CQCodeType)
    ensures
        tag_chars(k1) == tag_chars(k2) ==> k1 == k2,
{
    reveal_strlit("text");
    reveal_strlit("face");
    reveal_strlit("record");
    reveal_strlit("video");
    reveal_strlit("at");
    reveal_strlit("share");
    reveal_strlit("music");
    reveal_strlit("image");
    reveal_strlit("reply");
    reveal_strlit("poke");
    reveal_strlit("forward");
    reveal_strlit("node");
    reveal_strlit("xml");
    reveal_strlit("json");
    reveal_strlit("tts");
    assert("text"@.len() == 4 && "text"@[0] == 't');
    assert("face"@.len() == 4 && "face"@[0] == 'f');
    assert("record"@.len() == 6 && "record"@[0] == 'r');
    assert("video"@.len() == 5 && "video"@[0] == 'v');
    assert("at"@.len() == 2 && "at"@[0] == 'a');
    assert("share"@.len() == 5 && "share"@[0] == 's');
    assert("music"@.len() == 5 && "music"@[0] == 'm');
    assert("image"@.len() == 5 && "image"@[0] == 'i');
    assert("reply"@.len() == 5 && "reply"@[0] == 'r');
    assert("poke"@.len() == 4 && "poke"@[0] == 'p');
    assert("forward"@.len() == 7 && "forward"@[0] == 'f');
    assert("node"@.len() == 4 && "node"@[0] == 'n');
    assert("xml"@.len() == 3 && "xml"@[0] == 'x');
    assert("json"@.len() == 4 && "json"@[0] == 'j');
    assert("tts"@.len() == 3 && "tts"@[0] == 't');
}

pub fn tag_str(k: CQCodeType) -> (r: &'static str)
    ensures
        r@ == tag_chars(k),
{
    match k {
        CQCodeType::Text => "text",
        CQCodeType::Face => "face",
        CQCodeType::Record => "record",
        CQCodeType::Video => "video",
        CQCodeType::At => "at",
        CQCodeType::Share => "share",
        CQCodeType::Music => "music",
        CQCodeType::Image => "image",
        CQCodeType::Reply => "reply",
        CQCodeType::Poke => "poke",
        CQCodeType::Forward => "forward",
        CQCodeType::Node => "node",
        CQCodeType::Xml => "xml",
        CQCodeType::Json => "json",
        CQCodeType::Tts => "tts",
    }
}

/// Maps a parsed tag back to its kind; every known tag is recognised.
pub fn kind_of_tag(tag: &Vec<char>) -> (r: Result<CQCodeType, DecodeError>)
    ensures
        forall|k: CQCodeType| tag@ == #[trigger] tag_chars(k) ==> r == Ok::<
            CQCodeType,
            DecodeError,
        >(k),
        r matches Ok(k) ==> tag@ == tag_chars(k),
{
    proof {
        reveal_strlit("text");
        reveal_strlit("face");
        reveal_strlit("record");
        reveal_strlit("video");
        reveal_strlit("at");
        reveal_strlit("share");
        reveal_strlit("music");
        reveal_strlit("image");
        reveal_strlit("reply");
        reveal_strlit("poke");
        reveal_strlit("forward");
        reveal_strlit("node");
        reveal_strlit("xml");
        reveal_strlit("json");
        reveal_strlit("tts");
    }
    if eq_chars_str(tag, "text") {
        proof {
            assert(tag_chars(CQCodeType::Text) == "text"@);
            assert forall|k: CQCodeType| tag@ == #[trigger] tag_chars(k) implies k
                == CQCodeType::Text by {
                lemma_tag_distinct(k, CQCodeType::Text);
            }
        }
        return Ok(CQCodeType::Text);
    }
    if eq_chars_str(tag, "face") {
        proof {
            assert(tag_chars(CQCodeType::Face) == "face"@);
            assert forall|k: CQCodeType| tag@ == #[trigger] tag_chars(k) implies k
                == CQCodeType::Face by {
                lemma_tag_distinct(k, CQCodeType::Face);
            }
        }
        return Ok(CQCodeType::Face);
    }
    if eq_chars_str(tag, "record") {
        proof {
            assert(tag_chars(CQCodeType::Record) == "record"@);
            assert forall|k: CQCodeType| tag@ == #[trigger] tag_chars(k) implies k
                == CQCodeType::Record by {
                lemma_tag_distinct(k, CQCodeType::Record);
            }
        }
        return Ok(CQCodeType::Record);
    }
    if eq_chars_str(tag, "video") {
        proof {
            assert(tag_chars(CQCodeType::Video) == "video"@);
            assert forall|k: CQCodeType| tag@ == #[trigger] tag_chars(k) implies k
                == CQCodeType::Video by {
                lemma_tag_distinct(k, CQCodeType::Video);
            }
        }
        return Ok(CQCodeType::Video);
    }
    if eq_chars_str(tag, "at") {
        proof {
            assert(tag_chars(CQCodeType::At) == "at"@);
            assert forall|k: CQCodeType| tag@ == #[trigger] tag_chars(k) implies k
                == CQCodeType::At by {
                lemma_tag_distinct(k, CQCodeType::At);
            }
        }
        return Ok(CQCodeType::At);
    }
    if eq_chars_str(tag, "share") {
        proof {
            assert(tag_chars(CQCodeType::Share) == "share"@);
            assert forall|k: CQCodeType| tag@ == #[trigger] tag_chars(k) implies k
                == CQCodeType::Share by {
                lemma_tag_distinct(k, CQCodeType::Share);
            }
        }
        return Ok(CQCodeType::Share);
    }
    if eq_chars_str(tag, "music") {
        proof {
            assert(tag_chars(CQCodeType::Music) == "music"@);
            assert forall|k: CQCodeType| tag@ == #[trigger] tag_chars(k) implies k
                == CQCodeType::Music by {
                lemma_tag_distinct(k, CQCodeType::Music);
            }
        }
        return Ok(CQCodeType::Music);
    }
    if eq_chars_str(tag, "image") {
        proof {
            assert(tag_chars(CQCodeType::Image) == "image"@);
            assert forall|k: CQCodeType| tag@ == #[trigger] tag_chars(k) implies k
                == CQCodeType::Image by {
                lemma_tag_distinct(k, CQCodeType::Image);
            }
        }
        return Ok(CQCodeType::Image);
    }
    if eq_chars_str(tag, "reply") {
        proof {
            assert(tag_chars(CQCodeType::Reply) == "reply"@);
            assert forall|k: CQCodeType| tag@ == #[trigger] tag_chars(k) implies k
                == CQCodeType::Reply by {
                lemma_tag_distinct(k, CQCodeType::Reply);
            }
        }
        return Ok(CQCodeType::Reply);
    }
    if eq_chars_str(tag, "poke") {
        proof {
            assert(tag_chars(CQCodeType::Poke) == "poke"@);
            assert forall|k: CQCodeType| tag@ == #[trigger] tag_chars(k) implies k
                == CQCodeType::Poke by {
                lemma_tag_distinct(k, CQCodeType::Poke);
            }
        }
        return Ok(CQCodeType::Poke);
    }
    if eq_chars_str(tag, "forward") {
        proof {
            assert(tag_chars(CQCodeType::Forward) == "forward"@);
            assert forall|k: CQCodeType| tag@ == #[trigger] tag_chars(k) implies k
                == CQCodeType::Forward by {
                lemma_tag_distinct(k, CQCodeType::Forward);
            }
        }
        return Ok(CQCodeType::Forward);
    }
    if eq_chars_str(tag, "node") {
        proof {
            assert(tag_chars(CQCodeType::Node) == "node"@);
            assert forall|k: CQCodeType| tag@ == #[trigger] tag_chars(k) implies k
                == CQCodeType::Node by {
                lemma_tag_distinct(k, CQCodeType::Node);
            }
        }
        return Ok(CQCodeType::Node);
    }
    if eq_chars_str(tag, "xml") {
        proof {
            assert(tag_chars(CQCodeType::Xml) == "xml"@);
            assert forall|k: CQCodeType| tag@ == #[trigger] tag_chars(k) implies k
                == CQCodeType::Xml by {
                lemma_tag_distinct(k, CQCodeType::Xml);
            }
        }
        return Ok(CQCodeType::Xml);
    }
    if eq_chars_str(tag, "json") {
        proof {
            assert(tag_chars(CQCodeType::Json) == "json"@);
            assert forall|k: CQCodeType| tag@ == #[trigger] tag_chars(k) implies k
                == CQCodeType::Json by {
                lemma_tag_distinct(k, CQCodeType::Json);
            }
        }
        return Ok(CQCodeType::Json);
    }
    if eq_chars_str(tag, "tts") {
        proof {
            assert(tag_chars(CQCodeType::Tts) == "tts"@);
            assert forall|k: CQCodeType| tag@ == #[trigger] tag_chars(k) implies k
                == CQCodeType::Tts by {
                lemma_tag_distinct(k, CQCodeType::Tts);
            }
        }
        return Ok(CQCodeType::Tts);
    }
    Err(DecodeError::UnknownKindTag)
}

/// Encodes a kind and a field list as one segment's wire text.
pub fn encode_wire_kind(k: CQCodeType, fields: &Vec<Field>) -> (r: String)
    ensures
        r@ == spec_message(tag_chars(k), views_of(fields@)),
{
    encode_wire(tag_str(k), fields)
}

/// Decodes one segment's wire text into its kind and its data fields.
/// Every canonically encoded message is recovered exactly; whatever is
/// returned is a well-formed field list.
#[verifier::rlimit(100)]
pub fn decode_wire(s: &str) -> (r: Result<(CQCodeType, Vec<Field>), DecodeError>)
    ensures
        forall|k: CQCodeType, fs: Seq<(Seq<char>, SpecVal)>|
            fields_wf(fs) && s@ == #[trigger] spec_message(tag_chars(k), fs) ==> (r matches Ok(p)
                && p.0 == k && views_of(p.1@) == fs),
        r matches Ok(p) ==> fields_wf(views_of(p.1@)),
        r matches Ok(p) ==> ws_interleave(s@, spec_message(tag_chars(p.0), views_of(p.1@))),
{
    let v = str_to_chars(s);
    proof {
        lemma_key_wf();
        assert forall|k: CQCodeType, fs: Seq<(Seq<char>, SpecVal)>|
            fields_wf(fs) && s@ == #[trigger] spec_message(tag_chars(k), fs) implies {
            let p1: int = 1 + spec_quote("type"@).len() as int;
            let p2: int = p1 + 1 + spec_quote(tag_chars(k)).len() as int;
            let p3: int = p2 + 1 + spec_quote("data"@).len() as int;
            let p5: int = p3 + 2 + spec_fields(fs).len() as int + 1;
            &&& v@.len() == p5 + 1
            &&& v@[0] == '{'
            &&& v@[1] == '"'
            &&& quote_prefix_at(v@, 1, "type"@)
            &&& v@[p1] == ':'
            &&& v@[p1 + 1] == '"'
            &&& quote_prefix_at(v@, p1 + 1, tag_chars(k))
            &&& v@[p2] == ','
            &&& v@[p2 + 1] == '"'
            &&& quote_prefix_at(v@, p2 + 1, "data"@)
            &&& v@[p3] == ':'
            &&& v@[p3 + 1] == '{'
            &&& fields_prefix_at(v@, p3 + 2, fs)
            &&& v@[p5] == '}'
            &&& str_wf(tag_chars(k))
        } by {
            lemma_tag_wf(k);
            let tag = tag_chars(k);
            let m = spec_message(tag, fs);
            let r6 = (spec_fields(fs) + seq!['}']) + seq!['}'];
            let r5 = seq![':', '{'] + r6;
            let r4 = spec_quote("data"@) + r5;
            let r3 = seq![','] + r4;
            let r2 = spec_quote(tag) + r3;
            let r1 = seq![':'] + r2;
            let r0 = spec_quote("type"@) + r1;
            assert(m =~= seq!['{'] + r0);
            assert(v@.subrange(0, v@.len() as int) =~= v@);
            lemma_prefix_shift(v@, 0, seq!['{'], r0);
            let p1: int = 1 + spec_quote("type"@).len() as int;
            lemma_prefix_shift(v@, 1, spec_quote("type"@), r1);
            lemma_prefix_shift(v@, p1, seq![':'], r2);
            let p2: int = p1 + 1 + spec_quote(tag).len() as int;
            lemma_prefix_shift(v@, p1 + 1, spec_quote(tag), r3);
            lemma_prefix_shift(v@, p2, seq![','], r4);
            let p3: int = p2 + 1 + spec_quote("data"@).len() as int;
            lemma_prefix_shift(v@, p2 + 1, spec_quote("data"@), r5);
            lemma_prefix_shift(v@, p3, seq![':', '{'], r6);
            lemma_prefix_shift(v@, p3 + 2, spec_fields(fs) + seq!['}'], seq!['}']);
            let p5: int = p3 + 2 + spec_fields(fs).len() as int + 1;
            assert(v@[0] == (seq!['{'] + r0)[0]) by {
                assert(v@[0] == v@.subrange(0, v@.len() as int)[0]);
            }
            assert(v@[1] == v@.subrange(1, 1 + spec_quote("type"@).len() as int)[0]);
            assert(v@[1] == spec_quote("type"@)[0]);
            assert(v@[p1] == v@.subrange(p1, p1 + 1 + r2.len() as int)[0]);
            assert(v@[p1] == (seq![':'] + r2)[0]);
            assert(v@[p1 + 1] == v@.subrange(p1 + 1, p1 + 1 + spec_quote(tag).len() as int)[0]);
            assert(v@[p1 + 1] == spec_quote(tag)[0]);
            assert(v@[p2] == v@.subrange(p2, p2 + 1 + r4.len() as int)[0]);
            assert(v@[p2] == (seq![','] + r4)[0]);
            assert(v@[p2 + 1] == v@.subrange(p2 + 1, p2 + 1 + spec_quote("data"@).len() as int)[0]);
            assert(v@[p2 + 1] == spec_quote("data"@)[0]);
            assert(v@[p3] == v@.subrange(p3, p3 + 2 + r6.len() as int)[0]);
            assert(v@[p3] == (seq![':', '{'] + r6)[0]);
            assert(v@[p3 + 1] == v@.subrange(p3, p3 + 2 + r6.len() as int)[1]);
            assert(v@[p3 + 1] == (seq![':', '{'] + r6)[1]);
            assert(v@[p5] == v@.subrange(p5, p5 + 1)[0]);
        }
        assert(!is_ws_char('{') && !is_ws_char('}') && !is_ws_char(':') && !is_ws_char(',')
            && !is_ws_char('"'));
    }
    let i0 = skip_ws(&v, 0);
    if i0 >= v.len() || v[i0] != '{' {
        proof {
            assert forall|k: CQCodeType, fs: Seq<(Seq<char>, SpecVal)>|
                fields_wf(fs) && s@ == #[trigger] spec_message(tag_chars(k), fs) implies false by {
                if i0 != 0 {
                    assert(is_ws_char(v@[0]));
                }
            }
        }
        return Err(DecodeError::Malformed);
    }
    proof {
        assert forall|k: CQCodeType, fs: Seq<(Seq<char>, SpecVal)>|
            fields_wf(fs) && s@ == #[trigger] spec_message(tag_chars(k), fs) implies i0 == 0 by {
            if i0 != 0 {
                assert(is_ws_char(v@[0]));
            }
        }
    }
    let i0b = skip_ws(&v, i0 + 1);
    proof {
        assert forall|k: CQCodeType, fs: Seq<(Seq<char>, SpecVal)>|
            fields_wf(fs) && s@ == #[trigger] spec_message(tag_chars(k), fs) implies (i0b as int
            == 1 && quote_prefix_at(v@, i0b as int, "type"@)) by {
            if i0b as int != 1 {
                assert(is_ws_char(v@[1]));
            }
        }
    }
    let key1 = match parse_string(&v, i0b) {
        None => {
            proof {
                assert forall|k: CQCodeType, fs: Seq<(Seq<char>, SpecVal)>|
                    fields_wf(fs) && s@ == #[trigger] spec_message(tag_chars(k), fs) implies false by {
                    assert(quote_prefix_at(v@, i0b as int, "type"@));
                }
            }
            return Err(DecodeError::Malformed);
        },
        Some(p) => p,
    };
    proof {
        assert forall|k: CQCodeType, fs: Seq<(Seq<char>, SpecVal)>|
            fields_wf(fs) && s@ == #[trigger] spec_message(tag_chars(k), fs) implies (key1.0@
            == "type"@ && key1.1 as int == 1 + spec_quote("type"@).len() as int) by {
            assert(quote_prefix_at(v@, i0b as int, "type"@));
        }
    }
    if !eq_chars_str(&key1.0, "type") {
        proof {
            assert forall|k: CQCodeType, fs: Seq<(Seq<char>, SpecVal)>|
                fields_wf(fs) && s@ == #[trigger] spec_message(tag_chars(k), fs) implies false by {}
        }
        return Err(DecodeError::Malformed);
    }
    let i1 = skip_ws(&v, key1.1);
    proof {
        assert forall|k: CQCodeType, fs: Seq<(Seq<char>, SpecVal)>|
            fields_wf(fs) && s@ == #[trigger] spec_message(tag_chars(k), fs) implies (i1 as int == 1
            + spec_quote("type"@).len() as int && v@[i1 as int] == ':') by {
            let p1: int = 1 + spec_quote("type"@).len() as int;
            if i1 as int != p1 {
                assert(is_ws_char(v@[p1]));
            }
        }
    }
    if i1 >= v.len() || v[i1] != ':' {
        proof {
            assert forall|k: CQCodeType, fs: Seq<(Seq<char>, SpecVal)>|
                fields_wf(fs) && s@ == #[trigger] spec_message(tag_chars(k), fs) implies false by {}
        }
        return Err(DecodeError::Malformed);
    }
    let i2 = skip_ws(&v, i1 + 1);
    proof {
        assert forall|k: CQCodeType, fs: Seq<(Seq<char>, SpecVal)>|
            fields_wf(fs) && s@ == #[trigger] spec_message(tag_chars(k), fs) implies (i2 as int == 2
            + spec_quote("type"@).len() as int && quote_prefix_at(v@, i2 as int, tag_chars(k))) by {
            let p1: int = 1 + spec_quote("type"@).len() as int;
            if i2 as int != p1 + 1 {
                assert(is_ws_char(v@[p1 + 1]));
            }
        }
    }
    let tagp = match parse_string(&v, i2) {
        None => {
            proof {
                assert forall|k: CQCodeType, fs: Seq<(Seq<char>, SpecVal)>|
                    fields_wf(fs) && s@ == #[trigger] spec_message(tag_chars(k), fs) implies false by {}
            }
            return Err(DecodeError::Malformed);
        },
        Some(p) => p,
    };
    proof {
        assert forall|k: CQCodeType, fs: Seq<(Seq<char>, SpecVal)>|
            fields_wf(fs) && s@ == #[trigger] spec_message(tag_chars(k), fs) implies (tagp.0@
            == tag_chars(k) && tagp.1 as int == 2 + spec_quote("type"@).len() as int + spec_quote(
            tag_chars(k),
        ).len() as int) by {}
    }
    let kind = match kind_of_tag(&tagp.0) {
        Err(e) => {
            proof {
                assert forall|k: CQCodeType, fs: Seq<(Seq<char>, SpecVal)>|
                    fields_wf(fs) && s@ == #[trigger] spec_message(tag_chars(k), fs) implies false by {}
            }
            return Err(e);
        },
        Ok(kk) => kk,
    };
    proof {
        assert forall|k: CQCodeType, fs: Seq<(Seq<char>, SpecVal)>|
            fields_wf(fs) && s@ == #[trigger] spec_message(tag_chars(k), fs) implies kind == k by {}
    }
    let i3 = skip_ws(&v, tagp.1);
    proof {
        assert forall|k: CQCodeType, fs: Seq<(Seq<char>, SpecVal)>|
            fields_wf(fs) && s@ == #[trigger] spec_message(tag_chars(k), fs) implies (i3 as int == 2
            + spec_quote("type"@).len() as int + spec_quote(tag_chars(k)).len() as int
            && v@[i3 as int] == ',') by {
            let p2: int = 2 + spec_quote("type"@).len() as int + spec_quote(tag_chars(k)).len() as int;
            if i3 as int != p2 {
                assert(is_ws_char(v@[p2]));
            }
        }
    }
    if i3 >= v.len() || v[i3] != ',' {
        proof {
            assert forall|k: CQCodeType, fs: Seq<(Seq<char>, SpecVal)>|
                fields_wf(fs) && s@ == #[trigger] spec_message(tag_chars(k), fs) implies false by {}
        }
        return Err(DecodeError::Malformed);
    }
    let i4 = skip_ws(&v, i3 + 1);
    proof {
        assert forall|k: CQCodeType, fs: Seq<(Seq<char>, SpecVal)>|
            fields_wf(fs) && s@ == #[trigger] spec_message(tag_chars(k), fs) implies (i4 as int == 3
            + spec_quote("type"@).len() as int + spec_quote(tag_chars(k)).len() as int
            && quote_prefix_at(v@, i4 as int, "data"@)) by {
            let p2: int = 2 + spec_quote("type"@).len() as int + spec_quote(tag_chars(k)).len() as int;
            if i4 as int != p2 + 1 {
                assert(is_ws_char(v@[p2 + 1]));
            }
        }
    }
    let key2 = match parse_string(&v, i4) {
        None => {
            proof {
                assert forall|k: CQCodeType, fs: Seq<(Seq<char>, SpecVal)>|
                    fields_wf(fs) && s@ == #[trigger] spec_message(tag_chars(k), fs) implies false by {}
            }
            return Err(DecodeError::Malformed);
        },
        Some(p) => p,
    };
    proof {
        assert forall|k: CQCodeType, fs: Seq<(Seq<char>, SpecVal)>|
            fields_wf(fs) && s@ == #[trigger] spec_message(tag_chars(k), fs) implies (key2.0@
            == "data"@ && key2.1 as int == 3 + spec_quote("type"@).len() as int + spec_quote(
            tag_chars(k),
        ).len() as int + spec_quote("data"@).len() as int) by {}
    }
    if !eq_chars_str(&key2.0, "data") {
        proof {
            assert forall|k: CQCodeType, fs: Seq<(Seq<char>, SpecVal)>|
                fields_wf(fs) && s@ == #[trigger] spec_message(tag_chars(k), fs) implies false by {}
        }
        return Err(DecodeError::Malformed);
    }
    let i5 = skip_ws(&v, key2.1);
    proof {
        assert forall|k: CQCodeType, fs: Seq<(Seq<char>, SpecVal)>|
            fields_wf(fs) && s@ == #[trigger] spec_message(tag_chars(k), fs) implies (i5 as int == 3
            + spec_quote("type"@).len() as int + spec_quote(tag_chars(k)).len() as int + spec_quote(
            "data"@,
        ).len() as int && v@[i5 as int] == ':') by {
            let p3: int = 3 + spec_quote("type"@).len() as int + spec_quote(tag_chars(k)).len() as int
                + spec_quote("data"@).len() as int;
            if i5 as int != p3 {
                assert(is_ws_char(v@[p3]));
            }
        }
    }
    if i5 >= v.len() || v[i5] != ':' {
        proof {
            assert forall|k: CQCodeType, fs: Seq<(Seq<char>, SpecVal)>|
                fields_wf(fs) && s@ == #[trigger] spec_message(tag_chars(k), fs) implies false by {}
        }
        return Err(DecodeError::Malformed);
    }
    let i6 = skip_ws(&v, i5 + 1);
    proof {
        assert forall|k: CQCodeType, fs: Seq<(Seq<char>, SpecVal)>|
            fields_wf(fs) && s@ == #[trigger] spec_message(tag_chars(k), fs) implies (i6 as int == 4
            + spec_quote("type"@).len() as int + spec_quote(tag_chars(k)).len() as int + spec_quote(
            "data"@,
        ).len() as int && v@[i6 as int] == '{') by {
            let p3: int = 3 + spec_quote("type"@).len() as int + spec_quote(tag_chars(k)).len() as int
                + spec_quote("data"@).len() as int;
            if i6 as int != p3 + 1 {
                assert(is_ws_char(v@[p3 + 1]));
            }
        }
    }
    if i6 >= v.len() || v[i6] != '{' {
        proof {
            assert forall|k: CQCodeType, fs: Seq<(Seq<char>, SpecVal)>|
                fields_wf(fs) && s@ == #[trigger] spec_message(tag_chars(k), fs) implies false by {}
        }
        return Err(DecodeError::Malformed);
    }
    let mut fields: Vec<Field> = Vec::new();
    proof {
        assert(views_of(Seq::<Field>::empty()) =~= Seq::<(Seq<char>, SpecVal)>::empty());
        assert(fields_wf(views_of(fields@)));
    }
    let j = match parse_fields(&v, i6 + 1, &mut fields) {
        None => {
            proof {
                assert forall|k: CQCodeType, fs: Seq<(Seq<char>, SpecVal)>|
                    fields_wf(fs) && s@ == #[trigger] spec_message(tag_chars(k), fs) implies false by {
                    assert(fields_prefix_at(v@, i6 + 1, fs));
                }
            }
            return Err(DecodeError::Malformed);
        },
        Some(j) => j,
    };
    proof {
        assert forall|k: CQCodeType, fs: Seq<(Seq<char>, SpecVal)>|
            fields_wf(fs) && s@ == #[trigger] spec_message(tag_chars(k), fs) implies (j as int == 5
            + spec_quote("type"@).len() as int + spec_quote(tag_chars(k)).len() as int + spec_quote(
            "data"@,
        ).len() as int + spec_fields(fs).len() as int + 1 && views_of(fields@) == fs && v@[j as int]
            == '}') by {
            assert(fields_prefix_at(v@, i6 + 1, fs));
            assert(views_of(Seq::<Field>::empty()) + fs =~= fs);
        }
    }
    let j1 = skip_ws(&v, j);
    proof {
        assert forall|k: CQCodeType, fs: Seq<(Seq<char>, SpecVal)>|
            fields_wf(fs) && s@ == #[trigger] spec_message(tag_chars(k), fs) implies (j1 == j
            && v@[j1 as int] == '}' && j1 as int + 1 == v@.len()) by {
            if j1 != j {
                assert(is_ws_char(v@[j as int]));
            }
        }
    }
    if j1 >= v.len() || v[j1] != '}' {
        proof {
            assert forall|k: CQCodeType, fs: Seq<(Seq<char>, SpecVal)>|
                fields_wf(fs) && s@ == #[trigger] spec_message(tag_chars(k), fs) implies false by {}
        }
        return Err(DecodeError::Malformed);
    }
    let j2 = skip_ws(&v, j1 + 1);
    if j2 < v.len() {
        proof {
            assert forall|k: CQCodeType, fs: Seq<(Seq<char>, SpecVal)>|
                fields_wf(fs) && s@ == #[trigger] spec_message(tag_chars(k), fs) implies false by {}
        }
        return Err(DecodeError::Malformed);
    }
    proof {
        assert forall|k: CQCodeType, fs: Seq<(Seq<char>, SpecVal)>|
            fields_wf(fs) && s@ == #[trigger] spec_message(tag_chars(k), fs) implies (kind == k
            && views_of(fields@) == fs) by {}
        // soundness: the input reads, whitespace aside, as the canonical
        // text of what was decoded
        assert(fields@.skip(0) =~= fields@);
        assert(v@.subrange((i0b as int), key1.1 as int) == spec_quote("type"@)) by {
            assert(v@.subrange(i0b as int, key1.1 as int) == spec_quote(key1.0@));
        }
        assert(v@.subrange(i2 as int, tagp.1 as int) == spec_quote(tag_chars(kind))) by {
            assert(v@.subrange(i2 as int, tagp.1 as int) == spec_quote(tagp.0@));
        }
        assert(v@.subrange(i4 as int, key2.1 as int) == spec_quote("data"@)) by {
            assert(v@.subrange(i4 as int, key2.1 as int) == spec_quote(key2.0@));
        }
        lemma_message_interleave(
            v@,
            i0 as int,
            i0b as int,
            key1.1 as int,
            i1 as int,
            i2 as int,
            tagp.1 as int,
            i3 as int,
            i4 as int,
            key2.1 as int,
            i5 as int,
            i6 as int,
            j as int,
            j1 as int,
            tag_chars(kind),
            views_of(fields@),
        );
    }
    Ok((kind, fields))
}

/// The capability every segment type offers: a fixed kind, decoding from
/// wire text, and encoding back to it. Canonical encodings of well-formed
/// values decode to an equal value, and decoding never yields an
/// ill-formed one.
pub trait CQCode: Sized {
    /// The fixed kind of this payload type, constant per type.
    spec fn fixed_kind() -> CQCodeType;

    /// The stored tag matches the type's fixed kind, and strings of the
    /// payload hold no unrepresentable control characters.
    spec fn wf_spec(&self) -> bool;

    /// The exact canonical wire text of this value.
    spec fn wire_spec(&self) -> Seq<char>;

    /// Payload equality at the level of field contents.
    spec fn same_payload(&self, other: &Self) -> bool;

    fn cq_code(&self) -> (k: CQCodeType)
        ensures
            k == Self::fixed_kind(),
    ;

    fn from_raw_message(s: &str) -> (r: Result<Self, DecodeError>)
        ensures
            forall|v: Self|
                v.wf_spec() && s@ == #[trigger] v.wire_spec() ==> (r matches Ok(w)
                    && w.same_payload(&v)),
            r matches Ok(w) ==> w.wf_spec() && ws_interleave(s@, w.wire_spec()),
            forall|k: CQCodeType, fs: Seq<(Seq<char>, SpecVal)>|
                fields_wf(fs) && s@ == #[trigger] spec_message(tag_chars(k), fs) && k
                    != Self::fixed_kind() ==> r == Err::<Self, DecodeError>(
                    DecodeError::MismatchedKindTag,
                ),
    ;

    fn to_raw_message(&self) -> (r: RawMessage)
        ensures
            r@ == self.wire_spec(),
    ;
}

} // verus!
