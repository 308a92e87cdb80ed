use cq_message::cq_code::CQCodeType;
use cq_message::codegen::{
    CodegenError, Context, DeclInput, DeclKind, Fd, FieldRepr, TypeRepr, get_option_inner,
};

fn plain(head: &str) -> TypeRepr {
    TypeRepr { head: head.to_string(), args: Vec::new() }
}

fn optional(inner: TypeRepr) -> TypeRepr {
    TypeRepr { head: "Option".to_string(), args: vec![inner] }
}

#[test]
fn plain_type_is_required() {
    let ty = plain("String");
    let (opt, inner) = get_option_inner(&ty);
    assert!(!opt);
    assert_eq!(inner.head, "String");
    assert_eq!(inner.args.len(), 0);
}

#[test]
fn optional_wrapper_is_optional_with_inner_type() {
    let ty = optional(plain("String"));
    let (opt, inner) = get_option_inner(&ty);
    assert!(opt);
    assert_eq!(inner.head, "String");
}

#[test]
fn double_wrapping_unwraps_one_level_only() {
    let ty = optional(optional(plain("i32")));
    let (opt, inner) = get_option_inner(&ty);
    assert!(opt);
    assert_eq!(inner.head, "Option");
    assert_eq!(inner.args.len(), 1);
    assert_eq!(inner.args[0].head, "i32");
}

#[test]
fn option_with_wrong_arity_is_required() {
    let ty = TypeRepr { head: "Option".to_string(), args: Vec::new() };
    let (opt, _) = get_option_inner(&ty);
    assert!(!opt);
}

#[test]
fn field_classification_through_from() {
    let f = FieldRepr { name: "file".to_string(), ty: optional(plain("String")) };
    let fd = Fd::from(f);
    assert_eq!(fd.name, "file");
    assert!(fd.optional);
    assert_eq!(fd.ty.head, "String");

    let g = FieldRepr { name: "id".to_string(), ty: plain("String") };
    let gd = Fd::from(g);
    assert_eq!(gd.name, "id");
    assert!(!gd.optional);
    assert_eq!(gd.ty.head, "String");
}

#[test]
fn record_declaration_is_accepted() {
    let decl = DeclInput {
        name: "Voice".to_string(),
        data: DeclKind::NamedRecord(vec![
            FieldRepr { name: "file".to_string(), ty: optional(plain("String")) },
            FieldRepr { name: "magic".to_string(), ty: optional(plain("i32")) },
        ]),
    };
    let ctx = Context::from(decl).unwrap();
    assert_eq!(ctx.name, "Voice");
    assert_eq!(ctx.fields.len(), 2);
    assert_eq!(ctx.fields[0].name, "file");
    assert!(ctx.fields[0].optional);
    assert_eq!(ctx.fields[1].name, "magic");
    assert_eq!(ctx.fields[1].ty.head, "i32");
}

#[test]
fn non_record_declarations_fail_generation() {
    for data in [DeclKind::TupleRecord, DeclKind::EnumDecl, DeclKind::UnionDecl] {
        let decl = DeclInput { name: "Bad".to_string(), data };
        assert_eq!(Context::from(decl).unwrap_err(), CodegenError::NotARecord);
    }
}

#[test]
fn rendered_implementation_text() {
    let ctx = Context { name: "Face".to_string(), fields: Vec::new() };
    assert_eq!(
        ctx.render_cq_code(CQCodeType::Face),
        "impl CQCode for Face{ fn cq_code(&self) -> CQCodeType { CQCodeType::Face } }"
    );
    let ctx2 = Context { name: "Voice".to_string(), fields: Vec::new() };
    assert_eq!(
        ctx2.render_cq_code(CQCodeType::Record),
        "impl CQCode for Voice{ fn cq_code(&self) -> CQCodeType { CQCodeType::Record } }"
    );
}

#[test]
fn optionized_field_lines() {
    let ctx = Context {
        name: "Voice".to_string(),
        fields: vec![
            Fd { name: "file".to_string(), ty: plain("String"), optional: true },
            Fd { name: "magic".to_string(), ty: plain("i32"), optional: true },
        ],
    };
    let lines = ctx.gen_optionized_fields();
    assert_eq!(lines, vec!["file: ty,".to_string(), "magic: ty,".to_string()]);
}
