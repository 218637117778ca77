//! Reading the enum that declares transport parameters from its source text.
use proc_macro2::fallback::{force, unforce};
use quote::ToTokens;
use syn::{parse_str, AttrStyle, Attribute as Attr, Expr, ItemEnum, Variant};
use vstd::prelude::*;

use crate::base::text::{optional_text, text_or_reason};
use crate::params::{
    all_declared, arguments_read, attributes_read, distinct_identifiers, first_wrong, identifier_of,
    identifiers_are_read_back, incomplete_variant_is_refused, parameter_for, parameter_of, parameters_read,
    quic_parameters, variants_read, Argument, ArgumentView, Attribute, AttributeView, ParamError, Parameter,
    ValueExpr, ValueView, VariantDecl, VariantView,
};

verus! {

/// A variant as it is written: its identifier, its discriminant, and of each attribute the path and all
/// that it encloses, path included.
#[derive(Debug)]
pub struct VariantText {
    pub ident: String,
    pub discriminant: Option<String>,
    pub attributes: Vec<(String, String)>,
}

/// An enum as it is written.
#[derive(Debug)]
pub struct EnumText {
    pub ident: String,
    pub variants: Vec<VariantText>,
}

/// The arguments of an attribute as they are written: each with its name and its value, or what the
/// parser says of that, and where the list breaks off, what the parser says.
#[derive(Debug)]
pub struct AttributeText {
    pub arguments: Vec<(String, Result<String, String>)>,
    pub broken_off: Option<String>,
}

/// What kind of expression a text is.
#[derive(Debug)]
pub enum ExprKind {
    Path,
    Range,
    Other,
    /// It is none; what the parser says.
    Unreadable(String),
}

/// `VariantText` with its text read.
pub struct VariantTextView {
    pub ident: Seq<char>,
    pub discriminant: Option<Seq<char>>,
    pub attributes: Seq<(Seq<char>, Seq<char>)>,
}

/// `EnumText` with its text read.
pub struct EnumTextView {
    pub ident: Seq<char>,
    pub variants: Seq<VariantTextView>,
}

/// `AttributeText` with its text read.
pub struct AttributeTextView {
    pub arguments: Seq<(Seq<char>, Result<Seq<char>, Seq<char>>)>,
    pub broken_off: Option<Seq<char>>,
}

/// `ExprKind` with its text read.
pub enum ExprKindView {
    Path,
    Range,
    Other,
    Unreadable(Seq<char>),
}

pub open spec fn texts_read(texts: Seq<(String, String)>) -> Seq<(Seq<char>, Seq<char>)> {
    texts.map_values(|text: (String, String)| (text.0@, text.1@))
}

impl VariantText {
    pub open spec fn view(&self) -> VariantTextView {
        VariantTextView {
            ident: self.ident@,
            discriminant: optional_text(self.discriminant),
            attributes: texts_read(self.attributes@),
        }
    }
}

impl EnumText {
    pub open spec fn view(&self) -> EnumTextView {
        EnumTextView {
            ident: self.ident@,
            variants: self.variants@.map_values(|variant: VariantText| variant.view()),
        }
    }
}

impl AttributeText {
    pub open spec fn view(&self) -> AttributeTextView {
        AttributeTextView {
            arguments: self.arguments@.map_values(
                |argument: (String, Result<String, String>)| (argument.0@, text_or_reason(argument.1)),
            ),
            broken_off: optional_text(self.broken_off),
        }
    }
}

impl ExprKind {
    pub open spec fn view(&self) -> ExprKindView {
        match *self {
            ExprKind::Path => ExprKindView::Path,
            ExprKind::Range => ExprKindView::Range,
            ExprKind::Other => ExprKindView::Other,
            ExprKind::Unreadable(reason) => ExprKindView::Unreadable(reason@),
        }
    }
}

pub open spec fn enum_or_reason(result: Result<EnumText, String>) -> Result<EnumTextView, Seq<char>> {
    match result {
        Ok(declared) => Ok(declared.view()),
        Err(reason) => Err(reason@),
    }
}

pub open spec fn attribute_or_reason(result: Result<AttributeText, String>) -> Result<AttributeTextView, Seq<char>> {
    match result {
        Ok(attribute) => Ok(attribute.view()),
        Err(reason) => Err(reason@),
    }
}

/// The enum that a source text is, or what the parser says.
pub uninterp spec fn enum_in(item: Seq<char>) -> Result<EnumTextView, Seq<char>>;

/// The arguments of the attribute that encloses a text, or what the parser says.
pub uninterp spec fn attribute_in(text: Seq<char>) -> Result<AttributeTextView, Seq<char>>;

/// The kind of expression that a text is.
pub uninterp spec fn kind_of(text: Seq<char>) -> ExprKindView;

/// `syn::parse_str` of a `syn::ItemEnum`: the enum's identifier and its variants, in order, each with its
/// discriminant and its attributes. These are put in words by `quote::ToTokens::to_token_stream` and the
/// text of that stream. `proc_macro2::fallback::force` has `proc_macro2` itself do that, also where a
/// compiler runs it to expand a macro, until `proc_macro2::fallback::unforce`.
#[verifier::external_body]
fn read_enum(item: &str) -> (result: Result<EnumText, String>)
    ensures
        enum_or_reason(result) == enum_in(item@),
{
    let written = |part: &dyn ToTokens| part.to_token_stream().to_string();
    let variant_of = |variant: &Variant| VariantText {
        ident: written(&variant.ident),
        discriminant: variant.discriminant.as_ref().map(|discriminant| written(&discriminant.1)),
        attributes: variant.attrs.iter().map(|attr| (written(attr.path()), written(&attr.meta))).collect(),
    };
    force();
    let read = parse_str(item).map(|declared: ItemEnum| EnumText {
        ident: written(&declared.ident),
        variants: declared.variants.iter().map(variant_of).collect(),
    });
    unforce();
    read.map_err(|error| error.to_string())
}

/// `syn::parse_str` of a `syn::Meta`, and `syn::Attribute::parse_nested_meta` of the attribute around it:
/// the name and the value of each argument, up to the first whose value is no expression. They are put in
/// words as above.
#[verifier::external_body]
fn read_attribute(text: &str) -> (result: Result<AttributeText, String>)
    ensures
        attribute_or_reason(result) == attribute_in(text@),
{
    let written = |part: &dyn ToTokens| part.to_token_stream().to_string();
    let said = |error: syn::Error| error.to_string();
    let mut arguments = Vec::new();
    force();
    let (pound_token, bracket_token) = Default::default();
    let read = parse_str(text).map(|meta| {
        Attr { pound_token, style: AttrStyle::Outer, bracket_token, meta }.parse_nested_meta(|meta| {
            let value = meta.value().and_then(|value| value.parse());
            arguments.push((written(&meta.path), value.clone().map(|value: Expr| written(&value)).map_err(said)));
            value.map(drop)
        })
    });
    unforce();
    Ok(AttributeText { arguments, broken_off: read.map_err(said)?.err().map(said) })
}

/// `syn::parse_str` of a `syn::Expr`: whether it is a path, a range or another expression. The text is
/// read as above.
#[verifier::external_body]
fn read_kind(text: &str) -> (kind: ExprKind)
    ensures
        kind.view() == kind_of(text@),
{
    force();
    let read = parse_str::<Expr>(text);
    unforce();
    match read {
        Ok(Expr::Path(_)) => ExprKind::Path,
        Ok(Expr::Range(_)) => ExprKind::Range,
        Ok(_) => ExprKind::Other,
        Err(error) => ExprKind::Unreadable(error.to_string()),
    }
}

/// The value of an argument.
pub open spec fn value_in(value: Result<Seq<char>, Seq<char>>) -> ValueView {
    match value {
        Err(reason) => ValueView::Unreadable(reason),
        Ok(text) => match kind_of(text) {
            ExprKindView::Path => ValueView::Path(text),
            ExprKindView::Range => ValueView::Range(text),
            ExprKindView::Other => ValueView::Other(text),
            ExprKindView::Unreadable(reason) => ValueView::Unreadable(reason),
        },
    }
}

/// An attribute whose values are told apart.
pub open spec fn sorted_out(path: Seq<char>, attribute: AttributeTextView) -> AttributeView {
    AttributeView {
        path,
        arguments: attribute.arguments.map_values(
            |argument: (Seq<char>, Result<Seq<char>, Seq<char>>)|
                ArgumentView { name: argument.0, value: value_in(argument.1) },
        ),
        broken_off: attribute.broken_off,
    }
}

/// What is written in attributes, or what the parser says of the first that is none.
pub open spec fn attributes_in(texts: Seq<(Seq<char>, Seq<char>)>) -> Result<Seq<AttributeView>, Seq<char>>
    decreases texts.len(),
{
    if texts.len() == 0 {
        Ok(Seq::empty())
    } else {
        match attributes_in(texts.drop_last()) {
            Err(reason) => Err(reason),
            Ok(before) => match attribute_in(texts.last().1) {
                Err(reason) => Err(reason),
                Ok(attribute) => Ok(before.push(sorted_out(texts.last().0, attribute))),
            },
        }
    }
}

/// The variants that are written, or what the parser says of the first attribute that is none.
pub open spec fn variants_in(texts: Seq<VariantTextView>) -> Result<Seq<VariantView>, Seq<char>>
    decreases texts.len(),
{
    if texts.len() == 0 {
        Ok(Seq::empty())
    } else {
        match variants_in(texts.drop_last()) {
            Err(reason) => Err(reason),
            Ok(before) => match attributes_in(texts.last().attributes) {
                Err(reason) => Err(reason),
                Ok(attributes) => Ok(
                    before.push(
                        VariantView {
                            ident: texts.last().ident,
                            discriminant: texts.last().discriminant,
                            attributes,
                        },
                    ),
                ),
            },
        }
    }
}

fn sort_value(value: &Result<String, String>) -> (sorted: ValueExpr)
    ensures
        sorted.view() == value_in(text_or_reason(*value)),
{
    match value {
        Err(reason) => ValueExpr::Unreadable(reason.as_str().to_owned()),
        Ok(text) => match read_kind(text.as_str()) {
            ExprKind::Path => ValueExpr::Path(text.as_str().to_owned()),
            ExprKind::Range => ValueExpr::Range(text.as_str().to_owned()),
            ExprKind::Other => ValueExpr::Other(text.as_str().to_owned()),
            ExprKind::Unreadable(reason) => ValueExpr::Unreadable(reason),
        },
    }
}

/// Reads the attribute with a path from the text that it encloses.
pub fn attribute_of(path: &str, text: &str) -> (result: Result<Attribute, String>)
    ensures
        match attribute_in(text@) {
            Ok(attribute) => result matches Ok(read) && read.view() == sorted_out(path@, attribute),
            Err(reason) => result matches Err(said) && said@ == reason,
        },
{
    let attribute = match read_attribute(text) {
        Ok(attribute) => attribute,
        Err(reason) => return Err(reason),
    };
    let ghost wanted = sorted_out(path@, attribute.view());
    let mut arguments: Vec<Argument> = Vec::new();
    let mut at: usize = 0;
    while at < attribute.arguments.len()
        invariant
            at <= attribute.arguments@.len(),
            wanted == sorted_out(path@, attribute.view()),
            arguments_read(arguments@) == wanted.arguments.take(at as int),
        decreases attribute.arguments@.len() - at,
    {
        let argument = &attribute.arguments[at];
        let ghost before = arguments@;
        let read = Argument { name: argument.0.as_str().to_owned(), value: sort_value(&argument.1) };
        let ghost added = read.view();
        assert(wanted.arguments[at as int] == added);
        arguments.push(read);
        at = at + 1;
        assert(arguments_read(arguments@) =~= arguments_read(before).push(added));
        assert(wanted.arguments.take(at as int) =~= wanted.arguments.take(at - 1).push(added));
    }
    assert(wanted.arguments.take(at as int) =~= wanted.arguments);
    Ok(Attribute { path: path.to_owned(), arguments, broken_off: attribute.broken_off })
}

proof fn lemma_attributes_stop(texts: Seq<(Seq<char>, Seq<char>)>, count: int)
    requires
        0 <= count <= texts.len(),
        attributes_in(texts.take(count)) is Err,
    ensures
        attributes_in(texts) == attributes_in(texts.take(count)),
    decreases texts.len() - count,
{
    if count < texts.len() {
        assert(texts.take(count + 1).drop_last() =~= texts.take(count));
        lemma_attributes_stop(texts, count + 1);
    } else {
        assert(texts.take(count) =~= texts);
    }
}

/// Reads attributes from their texts.
fn attributes_of(texts: &Vec<(String, String)>) -> (result: Result<Vec<Attribute>, String>)
    ensures
        match attributes_in(texts_read(texts@)) {
            Ok(attributes) => result matches Ok(read) && attributes_read(read@) == attributes,
            Err(reason) => result matches Err(said) && said@ == reason,
        },
{
    let ghost wanted = texts_read(texts@);
    let mut attributes: Vec<Attribute> = Vec::new();
    let mut at: usize = 0;
    assert(wanted.take(0) =~= Seq::empty());
    assert(attributes_read(attributes@) =~= Seq::empty());
    while at < texts.len()
        invariant
            at <= texts@.len(),
            wanted == texts_read(texts@),
            attributes_in(wanted.take(at as int)) == Ok::<Seq<AttributeView>, Seq<char>>(attributes_read(attributes@)),
        decreases texts@.len() - at,
    {
        let ghost before = attributes@;
        proof {
            assert(wanted.take(at as int + 1).drop_last() =~= wanted.take(at as int));
            assert(wanted.take(at as int + 1).last() == (texts@[at as int].0@, texts@[at as int].1@));
        }
        match attribute_of(texts[at].0.as_str(), texts[at].1.as_str()) {
            Ok(attribute) => {
                let ghost added = attribute.view();
                attributes.push(attribute);
                assert(attributes_read(attributes@) =~= attributes_read(before).push(added));
            },
            Err(reason) => {
                proof {
                    lemma_attributes_stop(wanted, at as int + 1);
                }
                return Err(reason);
            },
        }
        at = at + 1;
    }
    assert(wanted.take(at as int) =~= wanted);
    Ok(attributes)
}

proof fn lemma_variants_stop(texts: Seq<VariantTextView>, count: int)
    requires
        0 <= count <= texts.len(),
        variants_in(texts.take(count)) is Err,
    ensures
        variants_in(texts) == variants_in(texts.take(count)),
    decreases texts.len() - count,
{
    if count < texts.len() {
        assert(texts.take(count + 1).drop_last() =~= texts.take(count));
        lemma_variants_stop(texts, count + 1);
    } else {
        assert(texts.take(count) =~= texts);
    }
}

fn copy_text(text: &Option<String>) -> (copy: Option<String>)
    ensures
        optional_text(copy) == optional_text(*text),
{
    match text {
        Some(text) => Some(text.as_str().to_owned()),
        None => None,
    }
}

/// Reads variants from what is written.
pub fn variants_of(texts: &Vec<VariantText>) -> (result: Result<Vec<VariantDecl>, String>)
    ensures
        match variants_in(texts@.map_values(|variant: VariantText| variant.view())) {
            Ok(variants) => result matches Ok(read) && variants_read(read@) == variants,
            Err(reason) => result matches Err(said) && said@ == reason,
        },
{
    let ghost wanted = texts@.map_values(|variant: VariantText| variant.view());
    let mut variants: Vec<VariantDecl> = Vec::new();
    let mut at: usize = 0;
    assert(wanted.take(0) =~= Seq::empty());
    assert(variants_read(variants@) =~= Seq::empty());
    while at < texts.len()
        invariant
            at <= texts@.len(),
            wanted == texts@.map_values(|variant: VariantText| variant.view()),
            variants_in(wanted.take(at as int)) == Ok::<Seq<VariantView>, Seq<char>>(variants_read(variants@)),
        decreases texts@.len() - at,
    {
        let text = &texts[at];
        let ghost before = variants@;
        proof {
            assert(wanted.take(at as int + 1).drop_last() =~= wanted.take(at as int));
            assert(wanted.take(at as int + 1).last() == text.view());
        }
        match attributes_of(&text.attributes) {
            Ok(attributes) => {
                let variant = VariantDecl {
                    ident: text.ident.as_str().to_owned(),
                    discriminant: copy_text(&text.discriminant),
                    attributes,
                };
                let ghost added = variant.view();
                variants.push(variant);
                assert(variants_read(variants@) =~= variants_read(before).push(added));
            },
            Err(reason) => {
                proof {
                    lemma_variants_stop(wanted, at as int + 1);
                }
                return Err(reason);
            },
        }
        at = at + 1;
    }
    assert(wanted.take(at as int) =~= wanted);
    Ok(variants)
}

/// What an enum declares.
#[derive(Debug)]
pub struct Declaration {
    pub ident: String,
    pub parameters: Vec<Parameter>,
}

/// Why a source text declares nothing.
#[derive(Debug)]
pub enum DeclarationError {
    /// It is no enum; what the parser says.
    Syntax(String),
    /// One of its variants is wrong.
    Variant { index: usize, error: ParamError },
}

impl DeclarationError {
    /// What the author of the declaration is told.
    pub fn message(&self) -> (text: String)
        ensures
            match *self {
                DeclarationError::Syntax(reason) => text@ == reason@,
                DeclarationError::Variant { error, .. } => text@ == error.told(),
            },
    {
        match self {
            DeclarationError::Syntax(reason) => reason.as_str().to_owned(),
            DeclarationError::Variant { error, .. } => error.message(),
        }
    }
}

/// Whether an enum as it is written leads to a declaration, or to this error.
pub open spec fn declares_as(declared: EnumTextView, result: Result<Declaration, DeclarationError>) -> bool {
    match variants_in(declared.variants) {
        Err(reason) => result matches Err(DeclarationError::Syntax(said)) && said@ == reason,
        Ok(variants) => match result {
            Ok(declaration) => declaration.ident@ == declared.ident && all_declared(
                variants,
                parameters_read(declaration.parameters@),
            ),
            Err(DeclarationError::Variant { index, error }) => first_wrong(variants, index as int, error.view()),
            Err(DeclarationError::Syntax(_)) => false,
        },
    }
}

/// What an enum that was read declares.
pub fn declaration_of(declared: EnumText) -> (result: Result<Declaration, DeclarationError>)
    ensures
        declares_as(declared.view(), result),
{
    let variants = match variants_of(&declared.variants) {
        Ok(variants) => variants,
        Err(reason) => return Err(DeclarationError::Syntax(reason)),
    };
    match quic_parameters(&variants) {
        Ok(parameters) => Ok(Declaration { ident: declared.ident, parameters }),
        Err((index, error)) => Err(DeclarationError::Variant { index, error }),
    }
}

/// What the enum in a source text declares.
pub fn parameters_of(item: &str) -> (result: Result<Declaration, DeclarationError>)
    ensures
        match enum_in(item@) {
            Ok(declared) => declares_as(declared, result),
            Err(reason) => result matches Err(DeclarationError::Syntax(said)) && said@ == reason,
        },
{
    match read_enum(item) {
        Ok(declared) => declaration_of(declared),
        Err(reason) => Err(DeclarationError::Syntax(reason)),
    }
}

/// Whether no attribute of a variant declares it.
pub open spec fn undeclared(variant: VariantTextView) -> bool {
    forall|i: int|
        #![trigger variant.attributes[i]]
        0 <= i < variant.attributes.len() ==> variant.attributes[i].0 != "param"@
}

/// An enum with a variant that has no discriminant, or no attribute that declares it, declares nothing.
pub proof fn incomplete_declaration_is_refused(
    declared: EnumTextView,
    result: Result<Declaration, DeclarationError>,
    index: int,
)
    requires
        declares_as(declared, result),
        0 <= index < declared.variants.len(),
        declared.variants[index].discriminant is None || undeclared(declared.variants[index]),
    ensures
        result is Err,
{
    if result is Ok {
        let text = declared.variants[index];
        let variants = variants_in(declared.variants)->Ok_0;
        lemma_variants_count(declared.variants);
        lemma_variants_named(declared.variants, index);
        let variant = variants[index];
        assert(parameter_of(variant) is Ok);
        assert forall|i: int| #![trigger variant.attributes[i]] 0 <= i < variant.attributes.len()
            && undeclared(text) implies variant.attributes[i].path != "param"@ by {
            lemma_attribute_read(text.attributes, i);
            assert(text.attributes[i].0 != "param"@);
        }
        incomplete_variant_is_refused(variant);
    }
}

proof fn lemma_attributes_count(texts: Seq<(Seq<char>, Seq<char>)>)
    ensures
        attributes_in(texts) matches Ok(attributes) ==> attributes.len() == texts.len(),
    decreases texts.len(),
{
    if texts.len() > 0 {
        lemma_attributes_count(texts.drop_last());
    }
}

proof fn lemma_attribute_read(texts: Seq<(Seq<char>, Seq<char>)>, index: int)
    requires
        attributes_in(texts) is Ok,
        0 <= index < attributes_in(texts)->Ok_0.len(),
    ensures
        index < texts.len(),
        attribute_in(texts[index].1) is Ok,
        attributes_in(texts)->Ok_0[index] == sorted_out(texts[index].0, attribute_in(texts[index].1)->Ok_0),
    decreases texts.len(),
{
    lemma_attributes_count(texts);
    lemma_attributes_count(texts.drop_last());
    if index < texts.len() - 1 {
        lemma_attribute_read(texts.drop_last(), index);
    }
}

/// Whatever the discriminants of a declaration stand for, if they are distinct and can be encoded, then
/// every variant of the enum is read back from the identifier that it is written as, under its own name;
/// and an identifier of no variant is unknown.
pub proof fn declared_identifiers_are_read_back(
    declared: EnumTextView,
    declaration: Declaration,
    value: spec_fn(Seq<char>) -> u64,
    index: int,
    id: u64,
)
    requires
        declares_as(declared, Ok(declaration)),
        0 <= index < declared.variants.len(),
        distinct_identifiers(parameters_read(declaration.parameters@), value),
    ensures
        ({
            let parameters = parameters_read(declaration.parameters@);
            let written = identifier_of(parameters, value, index);
            &&& parameters.len() == declared.variants.len()
            &&& declaration.ident@ == declared.ident
            &&& parameters[index].ident == declared.variants[index].ident
            &&& declared.variants[index].discriminant == Some(parameters[index].discriminant)
            &&& written.wf()
            &&& parameter_for(parameters, value, written.value) == Some(index)
            &&& parameter_for(parameters, value, id) is None <==> forall|i: int|
                #![trigger parameters[i]]
                0 <= i < parameters.len() ==> value(parameters[i].discriminant) != id
        }),
{
    let parameters = parameters_read(declaration.parameters@);
    let variants = variants_in(declared.variants)->Ok_0;
    lemma_variants_count(declared.variants);
    lemma_variants_named(declared.variants, index);
    identifiers_are_read_back(variants, parameters, value, index, id);
}

proof fn lemma_variants_named(texts: Seq<VariantTextView>, index: int)
    requires
        variants_in(texts) is Ok,
        0 <= index < texts.len(),
    ensures
        ({
            let variants = variants_in(texts)->Ok_0;
            &&& variants.len() == texts.len()
            &&& variants[index].ident == texts[index].ident
            &&& variants[index].discriminant == texts[index].discriminant
            &&& attributes_in(texts[index].attributes) == Ok::<Seq<AttributeView>, Seq<char>>(
                variants[index].attributes,
            )
        }),
    decreases texts.len(),
{
    lemma_variants_count(texts.drop_last());
    if index < texts.len() - 1 {
        lemma_variants_named(texts.drop_last(), index);
    }
}

proof fn lemma_variants_count(texts: Seq<VariantTextView>)
    ensures
        variants_in(texts) matches Ok(variants) ==> variants.len() == texts.len(),
    decreases texts.len(),
{
    if texts.len() > 0 {
        lemma_variants_count(texts.drop_last());
    }
}

/// A value is read as the kind of expression that it is.
pub proof fn values_are_told_apart(text: Seq<char>, reason: Seq<char>)
    ensures
        value_in(Ok(text)) == ValueView::Path(text) <==> kind_of(text) is Path,
        value_in(Ok(text)) == ValueView::Range(text) <==> kind_of(text) is Range,
        value_in(Ok(text)) == ValueView::Other(text) <==> kind_of(text) is Other,
        kind_of(text) matches ExprKindView::Unreadable(said) ==> value_in(Ok(text)) == ValueView::Unreadable(said),
        value_in(Err(reason)) == ValueView::Unreadable(reason),
{
}

/// The attributes of a variant are read in order, each with its path, with its arguments in order, and with what
/// the parser says where they break off.
pub proof fn attributes_are_read_in_order(texts: Seq<(Seq<char>, Seq<char>)>, index: int, argument: int)
    requires
        attributes_in(texts) is Ok,
        0 <= index < texts.len(),
    ensures
        ({
            let attributes = attributes_in(texts)->Ok_0;
            let written = attribute_in(texts[index].1);
            &&& attributes.len() == texts.len()
            &&& written is Ok
            &&& attributes[index].path == texts[index].0
            &&& attributes[index].broken_off == written->Ok_0.broken_off
            &&& attributes[index].arguments.len() == written->Ok_0.arguments.len()
            &&& 0 <= argument < written->Ok_0.arguments.len() ==> attributes[index].arguments[argument].name
                == written->Ok_0.arguments[argument].0 && attributes[index].arguments[argument].value == value_in(
                written->Ok_0.arguments[argument].1,
            )
        }),
{
    lemma_attributes_count(texts);
    lemma_attribute_read(texts, index);
}

/// The variants of an enum are read in order, each with its name, its discriminant and its attributes. They
/// are read exactly if every attribute of every variant can be.
pub proof fn variants_are_read_in_order(texts: Seq<VariantTextView>, index: int)
    ensures
        variants_in(texts) is Ok ==> variants_in(texts)->Ok_0.len() == texts.len(),
        variants_in(texts) is Ok && 0 <= index < texts.len() ==> {
            let variant = variants_in(texts)->Ok_0[index];
            &&& variant.ident == texts[index].ident
            &&& variant.discriminant == texts[index].discriminant
            &&& attributes_in(texts[index].attributes) == Ok::<Seq<AttributeView>, Seq<char>>(variant.attributes)
        },
        0 <= index < texts.len() && attributes_in(texts[index].attributes) is Err ==> variants_in(texts) is Err,
{
    lemma_variants_count(texts);
    if 0 <= index < texts.len() && variants_in(texts) is Ok {
        lemma_variants_named(texts, index);
    }
}

/// What is read of a declaration's text is all that was written.
pub proof fn texts_of_a_declaration_are_read(declared: EnumText, attribute: AttributeText, index: int)
    ensures
        declared.view().ident == declared.ident@,
        declared.view().variants.len() == declared.variants@.len(),
        0 <= index < declared.variants@.len() ==> {
            let variant = declared.variants@[index];
            let view = declared.view().variants[index];
            &&& view.ident == variant.ident@
            &&& view.discriminant == match variant.discriminant {
                Some(discriminant) => Some(discriminant@),
                None => None,
            }
            &&& view.attributes.len() == variant.attributes@.len()
        },
        attribute.view().arguments.len() == attribute.arguments@.len(),
        0 <= index < attribute.arguments@.len() ==> attribute.view().arguments[index].0 == attribute.arguments@[index].0@,
        attribute.view().broken_off == match attribute.broken_off {
            Some(reason) => Some(reason@),
            None => None,
        },
{
}

} // verus!
