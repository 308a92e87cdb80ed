use cq_message::cq_code::{CQCode, CQCodeType, DecodeError, RawMessage};
use cq_message::cq_codes::{
    Face, FaceInner, Image, ImageInner, Poke, PokeInner, Reply, ReplyInner, Share, ShareInner,
    Tts, TtsInner, Voice, VoiceInner,
};

#[test]
fn test_face() {
    let json = r#"{
    "type": "face",
    "data": {
        "id": "1"
    }
}"#;
    let value: Face = CQCode::from_raw_message(json).unwrap();
    let out: RawMessage = CQCode::to_raw_message(&value);

    assert_eq!(out, r#"{"type":"face","data":{"id":"1"}}"#);
    assert_eq!(value.cq_code(), CQCodeType::Face);
}

#[test]
fn test_voice() {
    let st = r#"{
            "type": "face",
            "data": {
                "file": "111",
                "magic": 0
            }
        }"#;
    let voice = Voice {
        typ: CQCodeType::Face,
        data: VoiceInner {
            file: None,
            magic: Option::Some(2),
            url: None,
            cache: None,
            proxy: None,
            timeout: None,
        },
    };

    let out: Result<Voice, DecodeError> = CQCode::from_raw_message(st);

    assert_eq!(out, Err(DecodeError::MismatchedKindTag));
    println!("{:#?}", out);
}

#[test]
fn face_decode_yields_payload_field() {
    let value: Face = CQCode::from_raw_message(r#"{"type":"face","data":{"id":"1"}}"#).unwrap();
    assert_eq!(value.cq_code(), CQCodeType::Face);
    assert_eq!(value.data.id, "1");
    assert_eq!(value.to_raw_message(), r#"{"type":"face","data":{"id":"1"}}"#);
}

#[test]
fn voice_round_trip_all_fields() {
    let v = Voice {
        typ: CQCodeType::Record,
        data: VoiceInner {
            file: Some("a.amr".to_string()),
            magic: Some(1),
            url: Some("http://x/y".to_string()),
            cache: Some("1".to_string()),
            proxy: Some(0),
            timeout: Some(30),
        },
    };
    let text = v.to_raw_message();
    assert_eq!(
        text,
        r#"{"type":"record","data":{"file":"a.amr","magic":1,"url":"http://x/y","cache":"1","proxy":0,"timeout":30}}"#
    );
    let back: Voice = CQCode::from_raw_message(&text).unwrap();
    assert_eq!(back, v);
}

#[test]
fn absent_optional_is_omitted() {
    let v = Voice {
        typ: CQCodeType::Record,
        data: VoiceInner {
            file: None,
            magic: Some(2),
            url: None,
            cache: None,
            proxy: None,
            timeout: None,
        },
    };
    let text = v.to_raw_message();
    assert_eq!(text, r#"{"type":"record","data":{"magic":2}}"#);
    assert!(!text.contains("file"));
}

#[test]
fn kind_matches_tag_in_wire_text() {
    let v = Tts { typ: CQCodeType::Tts, data: TtsInner { text: Some("hi".to_string()) } };
    let text = v.to_raw_message();
    assert!(text.starts_with(r#"{"type":"tts""#));
    let back: Tts = CQCode::from_raw_message(&text).unwrap();
    assert_eq!(back.cq_code(), v.cq_code());
}

#[test]
fn reply_round_trip_negative_and_large_numbers() {
    let v = Reply {
        typ: CQCodeType::Reply,
        data: ReplyInner {
            id: Some(-5),
            text: Some("quoted".to_string()),
            qq: Some(i64::MIN),
            time: Some(i64::MAX),
            seq: Some(0),
        },
    };
    let text = v.to_raw_message();
    assert_eq!(
        text,
        r#"{"type":"reply","data":{"id":-5,"text":"quoted","qq":-9223372036854775808,"time":9223372036854775807,"seq":0}}"#
    );
    let back: Reply = CQCode::from_raw_message(&text).unwrap();
    assert_eq!(back, v);
}

#[test]
fn escaped_characters_round_trip() {
    let v = Share {
        typ: CQCodeType::Share,
        data: ShareInner {
            url: Some("http://a/b?c=\"d\"".to_string()),
            title: Some("line\nbreak\tand\\slash".to_string()),
            content: None,
            image: None,
        },
    };
    let text = v.to_raw_message();
    let back: Share = CQCode::from_raw_message(&text).unwrap();
    assert_eq!(back, v);
}

#[test]
fn image_rename_sub_type_round_trip() {
    let v = Image {
        typ: CQCodeType::Image,
        data: ImageInner {
            file: Some("1.png".to_string()),
            typ: Some("show".to_string()),
            sub_type: Some("1".to_string()),
            url: None,
            cache: Some(1),
            id: Some(40000),
            c: None,
        },
    };
    let text = v.to_raw_message();
    assert_eq!(
        text,
        r#"{"type":"image","data":{"file":"1.png","type":"show","subType":"1","cache":1,"id":40000}}"#
    );
    let back: Image = CQCode::from_raw_message(&text).unwrap();
    assert_eq!(back, v);
}

#[test]
fn missing_required_field_is_an_error() {
    let r: Result<Face, DecodeError> = CQCode::from_raw_message(r#"{"type":"face","data":{}}"#);
    assert_eq!(r, Err(DecodeError::MissingRequiredField));
}

#[test]
fn wrong_field_type_is_an_error() {
    let r: Result<Face, DecodeError> = CQCode::from_raw_message(r#"{"type":"face","data":{"id":1}}"#);
    assert_eq!(r, Err(DecodeError::WrongFieldType));
    let r2: Result<Voice, DecodeError> =
        CQCode::from_raw_message(r#"{"type":"record","data":{"magic":"x"}}"#);
    assert_eq!(r2, Err(DecodeError::WrongFieldType));
}

#[test]
fn malformed_text_is_an_error() {
    let r: Result<Face, DecodeError> = CQCode::from_raw_message("{");
    assert_eq!(r, Err(DecodeError::Malformed));
    let r2: Result<Face, DecodeError> = CQCode::from_raw_message("");
    assert_eq!(r2, Err(DecodeError::Malformed));
    let r3: Result<Face, DecodeError> =
        CQCode::from_raw_message(r#"{"type":"face","data":{"id":"1"}} trailing"#);
    assert_eq!(r3, Err(DecodeError::Malformed));
}

#[test]
fn unknown_kind_tag_is_an_error() {
    let r: Result<Face, DecodeError> = CQCode::from_raw_message(r#"{"type":"nope","data":{}}"#);
    assert_eq!(r, Err(DecodeError::UnknownKindTag));
}

#[test]
fn number_overflow_is_an_error() {
    let r: Result<Poke, DecodeError> =
        CQCode::from_raw_message(r#"{"type":"poke","data":{"qq":99999999999999999999}}"#);
    assert_eq!(r, Err(DecodeError::Malformed));
}

#[test]
fn poke_round_trip_and_whitespace_tolerance() {
    let v = Poke { typ: CQCodeType::Poke, data: PokeInner { qq: Some(123456789) } };
    let text = v.to_raw_message();
    assert_eq!(text, r#"{"type":"poke","data":{"qq":123456789}}"#);
    let spaced = "{ \"type\" : \"poke\" ,\n \"data\" : { \"qq\" : 123456789 } }";
    let back: Poke = CQCode::from_raw_message(spaced).unwrap();
    assert_eq!(back, v);
}

#[test]
fn face_from_string_builds_a_face() {
    let f = Face::from_string("123".to_string());
    assert_eq!(f.cq_code(), CQCodeType::Face);
    assert_eq!(f.data.id, "123");
    assert_eq!(f, Face { typ: CQCodeType::Face, data: FaceInner { id: "123".to_string() } });
}

#[test]
fn mismatched_kind_tag_is_an_error() {
    let r: Result<Voice, DecodeError> =
        CQCode::from_raw_message(r#"{"type":"face","data":{"file":"f"}}"#);
    assert_eq!(r, Err(DecodeError::MismatchedKindTag));
    let r2: Result<Face, DecodeError> =
        CQCode::from_raw_message(r#"{"type":"record","data":{"id":"1"}}"#);
    assert_eq!(r2, Err(DecodeError::MismatchedKindTag));
}

#[test]
fn non_canonical_member_shapes_are_errors() {
    // reordered members
    let r: Result<Voice, DecodeError> =
        CQCode::from_raw_message(r#"{"type":"record","data":{"magic":2,"file":"f"}}"#);
    assert_eq!(r, Err(DecodeError::Malformed));
    // an unknown extra member
    let r2: Result<Face, DecodeError> =
        CQCode::from_raw_message(r#"{"type":"face","data":{"id":"1","x":"y"}}"#);
    assert_eq!(r2, Err(DecodeError::Malformed));
    // a leading zero in a number
    let r3: Result<Poke, DecodeError> =
        CQCode::from_raw_message(r#"{"type":"poke","data":{"qq":007}}"#);
    assert_eq!(r3, Err(DecodeError::Malformed));
}
