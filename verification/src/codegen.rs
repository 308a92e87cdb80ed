//! A model of the generation step that derives the segment capability
//! from a payload declaration. A field whose declared type is the
//! one-level optional wrapper is classified optional with its inner type;
//! every other field is required with its type unchanged. Generation
//! refuses any declaration that is not a record with named fields.
use vstd::prelude::*;

use crate::cq_code::CQCodeType;

verus! {

/// A declared type: a head name and its type arguments.
#[derive(Debug)]
pub struct TypeRepr {
    pub head: String,
    pub args: Vec<TypeRepr>,
}

/// One named field of a record declaration.
#[derive(Debug)]
pub struct FieldRepr {
    pub name: String,
    pub ty: TypeRepr,
}

/// The shape of a declaration handed to the generator.
#[derive(Debug)]
pub enum DeclKind {
    /// A record with named fields: the only shape the generator accepts.
    NamedRecord(Vec<FieldRepr>),
    /// A tuple-style record.
    TupleRecord,
    /// An enumeration.
    EnumDecl,
    /// A union.
    UnionDecl,
}

/// A declaration: a type name and its shape.
#[derive(Debug)]
pub struct DeclInput {
    pub name: String,
    pub data: DeclKind,
}

/// Generation fails before the program runs; the failure is a value here.
#[derive(Debug, Clone, Copy, PartialEq, Eq, Structural)]
pub enum CodegenError {
    /// The declaration is not a record with named fields.
    NotARecord,
}

/// A field after classification.
#[derive(Debug)]
pub struct Fd {
    pub name: String,
    pub ty: TypeRepr,
    pub optional: bool,
}

/// The single-parameter optional wrapper shape, judged purely by the
/// type's structure.
pub open spec fn is_optional_shape(t: TypeRepr) -> bool {
    t.head@ == "Option"@ && t.args@.len() == 1
}

/// What classification makes of one declared field.
pub open spec fn classified(f: FieldRepr) -> Fd {
    Fd {
        name: f.name,
        ty: if is_optional_shape(f.ty) {
            f.ty.args@[0]
        } else {
            f.ty
        },
        optional: is_optional_shape(f.ty),
    }
}

/// Classifies a declared type: optional exactly when it is the one-level
/// optional wrapper, in which case the inner type is exposed; required
/// with the type unchanged otherwise. A doubly wrapped optional is
/// optional of the once-wrapped inner type.
pub fn get_option_inner(ty: &TypeRepr) -> (r: (bool, &TypeRepr))
    ensures
        r.0 == is_optional_shape(*ty),
        is_optional_shape(*ty) ==> *r.1 == ty.args@[0],
        !is_optional_shape(*ty) ==> *r.1 == *ty,
{
    let opt_name = String::from_str("Option");
    if ty.head == opt_name && ty.args.len() == 1 {
        (true, &ty.args[0])
    } else {
        (false, ty)
    }
}

impl From<FieldRepr> for Fd {
    /// Classifies one declared field.
    fn from(f: FieldRepr) -> (r: Fd) {
        let opt_name = String::from_str("Option");
        let FieldRepr { name, ty } = f;
        if ty.head == opt_name && ty.args.len() == 1 {
            let TypeRepr { head: _, mut args } = ty;
            let inner = args.remove(0);
            Fd { name, ty: inner, optional: true }
        } else {
            Fd { name, ty, optional: false }
        }
    }
}

impl vstd::std_specs::convert::FromSpecImpl<FieldRepr> for Fd {
    open spec fn obeys_from_spec() -> bool {
        true
    }

    open spec fn from_spec(f: FieldRepr) -> Fd {
        classified(f)
    }
}

/// The generation context: the declared name and the classified fields.
#[derive(Debug)]
pub struct Context {
    pub name: String,
    pub fields: Vec<Fd>,
}

impl Context {
    /// Builds the context from a declaration. Only a record with named
    /// fields is accepted; any other shape is a generation failure.
    pub fn from(input: DeclInput) -> (r: Result<Context, CodegenError>)
        ensures
            input.data matches DeclKind::NamedRecord(fields) ==> (r matches Ok(c) && c.name
                == input.name && c.fields@.len() == fields@.len() && forall|i: int|
                0 <= i < fields@.len() ==> #[trigger] c.fields@[i] == classified(fields@[i])),
            !(input.data matches DeclKind::NamedRecord(_)) ==> r == Err::<Context, CodegenError>(
                CodegenError::NotARecord,
            ),
    {
        let DeclInput { name, data } = input;
        match data {
            DeclKind::NamedRecord(fields) => {
                let ghost orig = fields@;
                let mut rest = fields;
                let mut fds: Vec<Fd> = Vec::new();
                while rest.len() > 0
                    invariant
                        fds@.len() + rest@.len() == orig.len(),
                        rest@ == orig.skip(fds@.len() as int),
                        forall|i: int|
                            0 <= i < fds@.len() ==> #[trigger] fds@[i] == classified(orig[i]),
                    decreases rest@.len(),
                {
                    let f = rest.remove(0);
                    proof {
                        assert(f == orig[fds@.len() as int]);
                        assert(rest@ =~= orig.skip(fds@.len() as int + 1));
                    }
                    fds.push(Fd::from(f));
                }
                Ok(Context { name, fields: fds })
            },
            DeclKind::TupleRecord => Err(CodegenError::NotARecord),
            DeclKind::EnumDecl => Err(CodegenError::NotARecord),
            DeclKind::UnionDecl => Err(CodegenError::NotARecord),
        }
    }
}

/// The source name of a kind's variant.
pub open spec fn kind_variant_chars(k: CQCodeType) -> Seq<char> {
    match k {
        CQCodeType::Text => "Text"@,
        CQCodeType::Face => "Face"@,
        CQCodeType::Record => "Record"@,
        CQCodeType::Video => "Video"@,
        CQCodeType::At => "At"@,
        CQCodeType::Share => "Share"@,
        CQCodeType::Music => "Music"@,
        CQCodeType::Image => "Image"@,
        CQCodeType::Reply => "Reply"@,
        CQCodeType::Poke => "Poke"@,
        CQCodeType::Forward => "Forward"@,
        CQCodeType::Node => "Node"@,
        CQCodeType::Xml => "Xml"@,
        CQCodeType::Json => "Json"@,
        CQCodeType::Tts => "Tts"@,
    }
}

pub fn kind_variant_str(k: CQCodeType) -> (r: &'static str)
    ensures
        r@ == kind_variant_chars(k),
{
    match k {
        CQCodeType::Text => "Text",
        CQCodeType::Face => "Face",
        CQCodeType::Record => "Record",
        CQCodeType::Video => "Video",
        CQCodeType::At => "At",
        CQCodeType::Share => "Share",
        CQCodeType::Music => "Music",
        CQCodeType::Image => "Image",
        CQCodeType::Reply => "Reply",
        CQCodeType::Poke => "Poke",
        CQCodeType::Forward => "Forward",
        CQCodeType::Node => "Node",
        CQCodeType::Xml => "Xml",
        CQCodeType::Json => "Json",
        CQCodeType::Tts => "Tts",
    }
}

/// The implementation text generated for a declaration: `cq_code` returns
/// the declaration's kind as a constant, fixed at generation time.
pub open spec fn render_spec(name: Seq<char>, kind: CQCodeType) -> Seq<char> {
    "impl CQCode for "@ + name + "{ fn cq_code(&self) -> CQCodeType { CQCodeType::"@
        + kind_variant_chars(kind) + " } }"@
}

impl Context {
    /// Renders the segment capability implementation for this declaration
    /// and the kind associated with it at generation time.
    pub fn render_cq_code(&self, kind: CQCodeType) -> (r: String)
        ensures
            r@ == render_spec(self.name@, kind),
    {
        let mut out = String::from_str("impl CQCode for ");
        out.append(self.name.as_str());
        out.append("{ fn cq_code(&self) -> CQCodeType { CQCodeType::");
        out.append(kind_variant_str(kind));
        out.append(" } }");
        out
    }

    /// One rendered line per declared field.
    pub fn gen_optionized_fields(&self) -> (r: Vec<String>)
        ensures
            r@.len() == self.fields@.len(),
            forall|i: int|
                0 <= i < r@.len() ==> (#[trigger] r@[i])@ == self.fields@[i].name@ + ": ty,"@,
    {
        let mut r: Vec<String> = Vec::new();
        let mut i: usize = 0;
        while i < self.fields.len()
            invariant
                i <= self.fields@.len(),
                r@.len() == i,
                forall|j: int|
                    0 <= j < i as int ==> (#[trigger] r@[j])@ == self.fields@[j].name@ + ": ty,"@,
            decreases self.fields@.len() - i,
        {
            let mut line = String::new();
            line.append(self.fields[i].name.as_str());
            line.append(": ty,");
            r.push(line);
            i = i + 1;
        }
        r
    }
}

} // verus!
