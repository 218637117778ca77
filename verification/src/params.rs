//! The declaration of transport parameters: an enum whose variants say by `#[param(..)]` what type
//! a parameter has, what it defaults to, and what bounds it keeps.
use vstd::prelude::*;

use crate::base::text::{join, optional_text, same_text};
use crate::base::varint::{VarInt, VARINT_MAX};

verus! {

/// The type of a parameter's value.
#[derive(Clone, Copy, Debug, PartialEq, Eq, Structural)]
pub enum ParamType {
    VarInt,
    Boolean,
    Bytes,
    Duration,
    ResetToken,
    ConnectionId,
    PreferredAddress,
}

/// An expression in an attribute.
#[derive(Debug)]
pub enum ValueExpr {
    /// A path, as written.
    Path(String),
    Range(String),
    Other(String),
    /// No expression: what the parser said.
    Unreadable(String),
}

/// `ValueExpr` with its text read.
pub enum ValueView {
    Path(Seq<char>),
    Range(Seq<char>),
    Other(Seq<char>),
    Unreadable(Seq<char>),
}

impl ValueExpr {
    pub open spec fn view(&self) -> ValueView {
        match *self {
            ValueExpr::Path(text) => ValueView::Path(text@),
            ValueExpr::Range(text) => ValueView::Range(text@),
            ValueExpr::Other(text) => ValueView::Other(text@),
            ValueExpr::Unreadable(reason) => ValueView::Unreadable(reason@),
        }
    }
}

/// `name = value` in an attribute.
#[derive(Debug)]
pub struct Argument {
    pub name: String,
    pub value: ValueExpr,
}

/// `Argument` with its text read.
pub struct ArgumentView {
    pub name: Seq<char>,
    pub value: ValueView,
}

impl Argument {
    pub open spec fn view(&self) -> ArgumentView {
        ArgumentView { name: self.name@, value: self.value.view() }
    }
}

pub open spec fn arguments_read(arguments: Seq<Argument>) -> Seq<ArgumentView> {
    arguments.map_values(|argument: Argument| argument.view())
}

/// An attribute of a variant: its path, its arguments, and where the list of them breaks off, what the
/// parser said.
#[derive(Debug)]
pub struct Attribute {
    pub path: String,
    pub arguments: Vec<Argument>,
    pub broken_off: Option<String>,
}

/// `Attribute` with its text read.
pub struct AttributeView {
    pub path: Seq<char>,
    pub arguments: Seq<ArgumentView>,
    pub broken_off: Option<Seq<char>>,
}

impl Attribute {
    pub open spec fn view(&self) -> AttributeView {
        AttributeView {
            path: self.path@,
            arguments: arguments_read(self.arguments@),
            broken_off: optional_text(self.broken_off),
        }
    }
}

pub open spec fn attributes_read(attributes: Seq<Attribute>) -> Seq<AttributeView> {
    attributes.map_values(|attribute: Attribute| attribute.view())
}

/// A variant of the enum that declares parameters.
#[derive(Debug)]
pub struct VariantDecl {
    pub ident: String,
    pub discriminant: Option<String>,
    pub attributes: Vec<Attribute>,
}

/// `VariantDecl` with its text read.
pub struct VariantView {
    pub ident: Seq<char>,
    pub discriminant: Option<Seq<char>>,
    pub attributes: Seq<AttributeView>,
}

impl VariantDecl {
    pub open spec fn view(&self) -> VariantView {
        VariantView {
            ident: self.ident@,
            discriminant: optional_text(self.discriminant),
            attributes: attributes_read(self.attributes@),
        }
    }
}

pub open spec fn variants_read(variants: Seq<VariantDecl>) -> Seq<VariantView> {
    variants.map_values(|variant: VariantDecl| variant.view())
}

/// What is wrong with a declaration.
#[derive(Debug)]
pub enum ParamError {
    MissingDiscriminant,
    MissingParam,
    DuplicateValueType,
    DuplicateDefault,
    DuplicateBound,
    UnsupportedArgument,
    ValueTypeNotIdent,
    UnsupportedValueType(String),
    BoundNotRange,
    MissingValueType,
    BoundNotApplicable,
    Syntax(String),
}

/// `ParamError` with its text read.
pub enum ParamFault {
    MissingDiscriminant,
    MissingParam,
    DuplicateValueType,
    DuplicateDefault,
    DuplicateBound,
    UnsupportedArgument,
    ValueTypeNotIdent,
    UnsupportedValueType(Seq<char>),
    BoundNotRange,
    MissingValueType,
    BoundNotApplicable,
    Syntax(Seq<char>),
}

impl ParamError {
    pub open spec fn view(&self) -> ParamFault {
        match *self {
            ParamError::MissingDiscriminant => ParamFault::MissingDiscriminant,
            ParamError::MissingParam => ParamFault::MissingParam,
            ParamError::DuplicateValueType => ParamFault::DuplicateValueType,
            ParamError::DuplicateDefault => ParamFault::DuplicateDefault,
            ParamError::DuplicateBound => ParamFault::DuplicateBound,
            ParamError::UnsupportedArgument => ParamFault::UnsupportedArgument,
            ParamError::ValueTypeNotIdent => ParamFault::ValueTypeNotIdent,
            ParamError::UnsupportedValueType(name) => ParamFault::UnsupportedValueType(name@),
            ParamError::BoundNotRange => ParamFault::BoundNotRange,
            ParamError::MissingValueType => ParamFault::MissingValueType,
            ParamError::BoundNotApplicable => ParamFault::BoundNotApplicable,
            ParamError::Syntax(reason) => ParamFault::Syntax(reason@),
        }
    }

    /// What the author of a declaration is told, in words.
    pub open spec fn told(&self) -> Seq<char> {
        match self.view() {
            ParamFault::MissingDiscriminant => "Each variant must have a discriminant, e.g., `= 0`"@,
            ParamFault::MissingParam => "Each variant must have a `#[param(...)]` attribute"@,
            ParamFault::DuplicateValueType => "duplicate `value_type` argument"@,
            ParamFault::DuplicateDefault => "duplicate `default` argument"@,
            ParamFault::DuplicateBound => "duplicate `bound` argument"@,
            ParamFault::UnsupportedArgument => "unsupported `param` argument"@,
            ParamFault::ValueTypeNotIdent => "`value_type` must be an identifier"@,
            ParamFault::UnsupportedValueType(name) => "unsupported `value_type` `"@ + name + "`"@,
            ParamFault::BoundNotRange => "`bound` must be a range"@,
            ParamFault::MissingValueType => "missing `value_type` argument"@,
            ParamFault::BoundNotApplicable => "Bound is only applicable to VarInt or Duration types"@,
            ParamFault::Syntax(reason) => reason,
        }
    }

    /// What the author of a declaration is told.
    pub fn message(&self) -> (text: String)
        ensures
            text@ == self.told(),
    {
        match self {
            ParamError::MissingDiscriminant => "Each variant must have a discriminant, e.g., `= 0`".to_owned(),
            ParamError::MissingParam => "Each variant must have a `#[param(...)]` attribute".to_owned(),
            ParamError::DuplicateValueType => "duplicate `value_type` argument".to_owned(),
            ParamError::DuplicateDefault => "duplicate `default` argument".to_owned(),
            ParamError::DuplicateBound => "duplicate `bound` argument".to_owned(),
            ParamError::UnsupportedArgument => "unsupported `param` argument".to_owned(),
            ParamError::ValueTypeNotIdent => "`value_type` must be an identifier".to_owned(),
            ParamError::UnsupportedValueType(name) => join(
                join("unsupported `value_type` `", name.as_str()).as_str(),
                "`",
            ),
            ParamError::BoundNotRange => "`bound` must be a range".to_owned(),
            ParamError::MissingValueType => "missing `value_type` argument".to_owned(),
            ParamError::BoundNotApplicable => "Bound is only applicable to VarInt or Duration types".to_owned(),
            ParamError::Syntax(reason) => reason.as_str().to_owned(),
        }
    }
}

/// The name of a value type.
pub open spec fn name_for(value_type: ParamType) -> Seq<char> {
    match value_type {
        ParamType::VarInt => "VarInt"@,
        ParamType::Boolean => "Boolean"@,
        ParamType::Bytes => "Bytes"@,
        ParamType::Duration => "Duration"@,
        ParamType::ResetToken => "ResetToken"@,
        ParamType::ConnectionId => "ConnectionId"@,
        ParamType::PreferredAddress => "PreferredAddress"@,
    }
}

pub open spec fn expr_text(value: ValueView) -> Seq<char> {
    match value {
        ValueView::Path(text) => text,
        ValueView::Range(text) => text,
        ValueView::Other(text) => text,
        ValueView::Unreadable(text) => text,
    }
}

/// The type that an expression names.
pub open spec fn type_of(value: ValueView) -> Result<ParamType, ParamFault> {
    match value {
        ValueView::Path(text) => if text == name_for(ParamType::VarInt) {
            Ok(ParamType::VarInt)
        } else if text == name_for(ParamType::Boolean) {
            Ok(ParamType::Boolean)
        } else if text == name_for(ParamType::Bytes) {
            Ok(ParamType::Bytes)
        } else if text == name_for(ParamType::Duration) {
            Ok(ParamType::Duration)
        } else if text == name_for(ParamType::ResetToken) {
            Ok(ParamType::ResetToken)
        } else if text == name_for(ParamType::ConnectionId) {
            Ok(ParamType::ConnectionId)
        } else if text == name_for(ParamType::PreferredAddress) {
            Ok(ParamType::PreferredAddress)
        } else {
            Err(ParamFault::UnsupportedValueType(text))
        },
        ValueView::Unreadable(reason) => Err(ParamFault::Syntax(reason)),
        _ => Err(ParamFault::ValueTypeNotIdent),
    }
}

pub open spec fn default_of(value: ValueView) -> Result<Seq<char>, ParamFault> {
    match value {
        ValueView::Unreadable(reason) => Err(ParamFault::Syntax(reason)),
        _ => Ok(expr_text(value)),
    }
}

pub open spec fn bound_of(value: ValueView) -> Result<Seq<char>, ParamFault> {
    match value {
        ValueView::Range(text) => Ok(text),
        ValueView::Unreadable(reason) => Err(ParamFault::Syntax(reason)),
        _ => Err(ParamFault::BoundNotRange),
    }
}

/// What has been read of a parameter's arguments.
pub struct ArgsView {
    pub value_type: Option<ParamType>,
    pub default: Option<Seq<char>>,
    pub bound: Option<Seq<char>>,
}

/// What one more argument adds.
pub open spec fn with_argument(args: ArgsView, argument: ArgumentView) -> Result<ArgsView, ParamFault> {
    if argument.name == "value_type"@ {
        if args.value_type is Some {
            Err(ParamFault::DuplicateValueType)
        } else {
            match type_of(argument.value) {
                Ok(value_type) => Ok(ArgsView { value_type: Some(value_type), ..args }),
                Err(fault) => Err(fault),
            }
        }
    } else if argument.name == "default"@ {
        if args.default is Some {
            Err(ParamFault::DuplicateDefault)
        } else {
            match default_of(argument.value) {
                Ok(text) => Ok(ArgsView { default: Some(text), ..args }),
                Err(fault) => Err(fault),
            }
        }
    } else if argument.name == "bound"@ {
        if args.bound is Some {
            Err(ParamFault::DuplicateBound)
        } else {
            match bound_of(argument.value) {
                Ok(text) => Ok(ArgsView { bound: Some(text), ..args }),
                Err(fault) => Err(fault),
            }
        }
    } else {
        Err(ParamFault::UnsupportedArgument)
    }
}

/// What arguments say, read in order up to the first that is wrong.
pub open spec fn arguments_of(arguments: Seq<ArgumentView>) -> Result<ArgsView, ParamFault>
    decreases arguments.len(),
{
    if arguments.len() == 0 {
        Ok(ArgsView { value_type: None, default: None, bound: None })
    } else {
        match arguments_of(arguments.drop_last()) {
            Ok(args) => with_argument(args, arguments.last()),
            Err(fault) => Err(fault),
        }
    }
}

/// Whether `index` is the attribute that declares a variant: the first `param` one.
pub open spec fn declares(attributes: Seq<AttributeView>, index: int) -> bool {
    &&& 0 <= index < attributes.len()
    &&& attributes[index].path == "param"@
    &&& forall|earlier: int|
        #![trigger attributes[earlier]]
        0 <= earlier < index ==> attributes[earlier].path != "param"@
}

/// What the attributes of a variant say of its parameter.
pub open spec fn declared(attributes: Seq<AttributeView>) -> Result<ParamView, ParamFault> {
    if exists|index: int| #[trigger] declares(attributes, index) {
        let index = choose|index: int| #[trigger] declares(attributes, index);
        match (arguments_of(attributes[index].arguments), attributes[index].broken_off) {
            (Err(fault), _) => Err(fault),
            (Ok(_), Some(reason)) => Err(ParamFault::Syntax(reason)),
            (Ok(args), None) => match args.value_type {
                None => Err(ParamFault::MissingValueType),
                Some(value_type) => Ok(ParamView { value_type, default: args.default, bound: args.bound }),
            },
        }
    } else {
        Err(ParamFault::MissingParam)
    }
}

/// A parameter's type, default and bounds; the latter two as they were written.
#[derive(Debug)]
pub struct ParamArgs {
    pub value_type: ParamType,
    pub default: Option<String>,
    pub bound: Option<String>,
}

/// `ParamArgs` with its text read.
pub struct ParamView {
    pub value_type: ParamType,
    pub default: Option<Seq<char>>,
    pub bound: Option<Seq<char>>,
}

pub open spec fn args_or_fault(result: Result<ParamArgs, ParamError>) -> Result<ParamView, ParamFault> {
    match result {
        Ok(args) => Ok(args.view()),
        Err(error) => Err(error.view()),
    }
}

/// How a value is checked before it is accepted.
#[derive(Clone, Copy, Debug, PartialEq, Eq, Structural)]
pub enum BoundCheck {
    /// Every value is accepted.
    Unbounded,
    /// The integer must be within the bounds.
    Integer,
    /// The duration in milliseconds must be within the bounds.
    Milliseconds,
}

/// How values of a parameter are checked, if its type can have bounds at all.
pub open spec fn check_for(value_type: ParamType, bounded: bool) -> Result<BoundCheck, ParamFault> {
    if !bounded {
        Ok(BoundCheck::Unbounded)
    } else {
        match value_type {
            ParamType::VarInt => Ok(BoundCheck::Integer),
            ParamType::Duration => Ok(BoundCheck::Milliseconds),
            _ => Err(ParamFault::BoundNotApplicable),
        }
    }
}

impl ParamArgs {
    pub open spec fn view(&self) -> ParamView {
        ParamView {
            value_type: self.value_type,
            default: optional_text(self.default),
            bound: optional_text(self.bound),
        }
    }

    /// How values are to be checked.
    pub fn gen_validate(&self) -> (result: Result<BoundCheck, ParamError>)
        ensures
            match result {
                Ok(check) => check_for(self.value_type, self.bound is Some) == Ok::<BoundCheck, ParamFault>(check),
                Err(error) => check_for(self.value_type, self.bound is Some) == Err::<BoundCheck, ParamFault>(
                    error.view(),
                ),
            },
    {
        if self.bound.is_none() {
            return Ok(BoundCheck::Unbounded);
        }
        match self.value_type {
            ParamType::VarInt => Ok(BoundCheck::Integer),
            ParamType::Duration => Ok(BoundCheck::Milliseconds),
            _ => Err(ParamError::BoundNotApplicable),
        }
    }
}

fn read_type(value: &ValueExpr) -> (result: Result<ParamType, ParamError>)
    ensures
        match result {
            Ok(value_type) => type_of(value.view()) == Ok::<ParamType, ParamFault>(value_type),
            Err(error) => type_of(value.view()) == Err::<ParamType, ParamFault>(error.view()),
        },
{
    let name = match value {
        ValueExpr::Path(text) => text.as_str(),
        ValueExpr::Unreadable(reason) => return Err(ParamError::Syntax(reason.as_str().to_owned())),
        _ => return Err(ParamError::ValueTypeNotIdent),
    };
    if same_text(name, "VarInt") {
        Ok(ParamType::VarInt)
    } else if same_text(name, "Boolean") {
        Ok(ParamType::Boolean)
    } else if same_text(name, "Bytes") {
        Ok(ParamType::Bytes)
    } else if same_text(name, "Duration") {
        Ok(ParamType::Duration)
    } else if same_text(name, "ResetToken") {
        Ok(ParamType::ResetToken)
    } else if same_text(name, "ConnectionId") {
        Ok(ParamType::ConnectionId)
    } else if same_text(name, "PreferredAddress") {
        Ok(ParamType::PreferredAddress)
    } else {
        Err(ParamError::UnsupportedValueType(name.to_owned()))
    }
}

fn read_default(value: &ValueExpr) -> (result: Result<String, ParamError>)
    ensures
        match result {
            Ok(text) => default_of(value.view()) == Ok::<Seq<char>, ParamFault>(text@),
            Err(error) => default_of(value.view()) == Err::<Seq<char>, ParamFault>(error.view()),
        },
{
    match value {
        ValueExpr::Path(text) => Ok(text.as_str().to_owned()),
        ValueExpr::Range(text) => Ok(text.as_str().to_owned()),
        ValueExpr::Other(text) => Ok(text.as_str().to_owned()),
        ValueExpr::Unreadable(reason) => Err(ParamError::Syntax(reason.as_str().to_owned())),
    }
}

fn read_bound(value: &ValueExpr) -> (result: Result<String, ParamError>)
    ensures
        match result {
            Ok(text) => bound_of(value.view()) == Ok::<Seq<char>, ParamFault>(text@),
            Err(error) => bound_of(value.view()) == Err::<Seq<char>, ParamFault>(error.view()),
        },
{
    match value {
        ValueExpr::Range(text) => Ok(text.as_str().to_owned()),
        ValueExpr::Unreadable(reason) => Err(ParamError::Syntax(reason.as_str().to_owned())),
        _ => Err(ParamError::BoundNotRange),
    }
}

proof fn lemma_first_fault(arguments: Seq<ArgumentView>, n: int)
    requires
        0 <= n <= arguments.len(),
        arguments_of(arguments.take(n)) is Err,
    ensures
        arguments_of(arguments) == arguments_of(arguments.take(n)),
    decreases arguments.len() - n,
{
    if n < arguments.len() {
        assert(arguments.take(n + 1).drop_last() =~= arguments.take(n));
        lemma_first_fault(arguments, n + 1);
    } else {
        assert(arguments.take(n) =~= arguments);
    }
}

proof fn lemma_missing_type_is_found_last(arguments: Seq<ArgumentView>)
    ensures
        !(arguments_of(arguments) matches Err(fault) && fault is MissingValueType),
    decreases arguments.len(),
{
    if arguments.len() > 0 {
        lemma_missing_type_is_found_last(arguments.drop_last());
    }
}

/// Reads the arguments of a `param` attribute. A wrong one ends the reading.
pub fn read_arguments(arguments: &Vec<Argument>) -> (result: Result<ParamArgs, ParamError>)
    ensures
        args_or_fault(result) == match arguments_of(arguments_read(arguments@)) {
            Err(fault) => Err(fault),
            Ok(args) => match args.value_type {
                None => Err(ParamFault::MissingValueType),
                Some(value_type) => Ok(ParamView { value_type, default: args.default, bound: args.bound }),
            },
        },
{
    let mut value_type: Option<ParamType> = None;
    let mut default: Option<String> = None;
    let mut bound: Option<String> = None;
    let mut at: usize = 0;
    let ghost read = arguments_read(arguments@);
    assert(read.take(0) =~= Seq::empty());
    while at < arguments.len()
        invariant
            at <= arguments.len(),
            read == arguments_read(arguments@),
            arguments_of(read.take(at as int)) == Ok::<ArgsView, ParamFault>(
                ArgsView { value_type, default: optional_text(default), bound: optional_text(bound) },
            ),
        decreases arguments.len() - at,
    {
        let argument = &arguments[at];
        proof {
            assert(read.take(at as int + 1).drop_last() =~= read.take(at as int));
            assert(read.take(at as int + 1).last() == argument.view());
            if arguments_of(read.take(at as int + 1)) is Err {
                lemma_first_fault(read, at as int + 1);
            }
        }
        let name = argument.name.as_str();
        if same_text(name, "value_type") {
            if value_type.is_some() {
                return Err(ParamError::DuplicateValueType);
            }
            match read_type(&argument.value) {
                Ok(read) => value_type = Some(read),
                Err(error) => return Err(error),
            }
        } else if same_text(name, "default") {
            if default.is_some() {
                return Err(ParamError::DuplicateDefault);
            }
            match read_default(&argument.value) {
                Ok(read) => default = Some(read),
                Err(error) => return Err(error),
            }
        } else if same_text(name, "bound") {
            if bound.is_some() {
                return Err(ParamError::DuplicateBound);
            }
            match read_bound(&argument.value) {
                Ok(read) => bound = Some(read),
                Err(error) => return Err(error),
            }
        } else {
            return Err(ParamError::UnsupportedArgument);
        }
        at = at + 1;
    }
    assert(read.take(read.len() as int) =~= read);
    match value_type {
        Some(value_type) => Ok(ParamArgs { value_type, default, bound }),
        None => Err(ParamError::MissingValueType),
    }
}

/// Reads what a variant's attributes say of its parameter.
pub fn parse_variant_attrs(attributes: &Vec<Attribute>) -> (result: Result<ParamArgs, ParamError>)
    ensures
        args_or_fault(result) == declared(attributes_read(attributes@)),
{
    let mut at: usize = 0;
    let ghost read = attributes_read(attributes@);
    while at < attributes.len()
        invariant
            at <= attributes.len(),
            read == attributes_read(attributes@),
            forall|earlier: int| #![trigger read[earlier]] 0 <= earlier < at ==> read[earlier].path != "param"@,
        decreases attributes.len() - at,
    {
        assert(read[at as int] == attributes@[at as int].view());
        if same_text(attributes[at].path.as_str(), "param") {
            proof {
                lemma_missing_type_is_found_last(read[at as int].arguments);
                assert(declares(read, at as int));
                assert forall|index: int| #[trigger] declares(read, index) implies index == at by {
                    assert(read[index].path == "param"@);
                }
            }
            return match (read_arguments(&attributes[at].arguments), &attributes[at].broken_off) {
                (Ok(_), Some(reason)) => Err(ParamError::Syntax(reason.as_str().to_owned())),
                (Err(ParamError::MissingValueType), Some(reason)) => Err(
                    ParamError::Syntax(reason.as_str().to_owned()),
                ),
                (result, _) => result,
            };
        }
        at = at + 1;
    }
    assert(!exists|index: int| #[trigger] declares(read, index));
    Err(ParamError::MissingParam)
}

/// All that is generated for a parameter: the arms that turn its number into it and back, check its
/// values, and give its default and its type.
#[derive(Debug)]
pub struct Parameter {
    pub ident: String,
    pub discriminant: String,
    pub args: ParamArgs,
    pub check: BoundCheck,
}

/// `Parameter` with its text read.
pub struct ParameterView {
    pub ident: Seq<char>,
    pub discriminant: Seq<char>,
    pub args: ParamView,
    pub check: BoundCheck,
}

impl Parameter {
    pub open spec fn view(&self) -> ParameterView {
        ParameterView {
            ident: self.ident@,
            discriminant: self.discriminant@,
            args: self.args.view(),
            check: self.check,
        }
    }
}

/// The parameter that a variant declares.
pub open spec fn parameter_of(variant: VariantView) -> Result<ParameterView, ParamFault> {
    match variant.discriminant {
        None => Err(ParamFault::MissingDiscriminant),
        Some(discriminant) => match declared(variant.attributes) {
            Err(fault) => Err(fault),
            Ok(args) => match check_for(args.value_type, args.bound is Some) {
                Err(fault) => Err(fault),
                Ok(check) => Ok(
                    ParameterView { ident: variant.ident, discriminant, args, check },
                ),
            },
        },
    }
}

/// Reads one variant.
pub fn read_variant(variant: &VariantDecl) -> (result: Result<Parameter, ParamError>)
    ensures
        match result {
            Ok(parameter) => parameter_of(variant.view()) == Ok::<ParameterView, ParamFault>(parameter.view()),
            Err(error) => parameter_of(variant.view()) == Err::<ParameterView, ParamFault>(error.view()),
        },
{
    let discriminant = match &variant.discriminant {
        Some(discriminant) => discriminant.as_str().to_owned(),
        None => return Err(ParamError::MissingDiscriminant),
    };
    let args = match parse_variant_attrs(&variant.attributes) {
        Ok(args) => args,
        Err(error) => return Err(error),
    };
    match args.gen_validate() {
        Ok(check) => Ok(Parameter { ident: variant.ident.as_str().to_owned(), discriminant, args, check }),
        Err(error) => Err(error),
    }
}

/// Whether `parameters` are what the variants declare, one each.
pub open spec fn all_declared(variants: Seq<VariantView>, parameters: Seq<ParameterView>) -> bool {
    &&& parameters.len() == variants.len()
    &&& forall|i: int|
        #![trigger variants[i]]
        0 <= i < variants.len() ==> parameter_of(variants[i]) == Ok::<ParameterView, ParamFault>(parameters[i])
}

/// Whether the variant at `index` is the first that is wrong, and how.
pub open spec fn first_wrong(variants: Seq<VariantView>, index: int, fault: ParamFault) -> bool {
    &&& 0 <= index < variants.len()
    &&& parameter_of(variants[index]) == Err::<ParameterView, ParamFault>(fault)
    &&& forall|i: int| #![trigger variants[i]] 0 <= i < index ==> parameter_of(variants[i]) is Ok
}

pub open spec fn parameters_read(parameters: Seq<Parameter>) -> Seq<ParameterView> {
    parameters.map_values(|parameter: Parameter| parameter.view())
}

/// What an enum declares: one parameter for each variant, or the first variant that is wrong.
pub fn quic_parameters(variants: &Vec<VariantDecl>) -> (result: Result<Vec<Parameter>, (usize, ParamError)>)
    ensures
        match result {
            Ok(parameters) => all_declared(variants_read(variants@), parameters_read(parameters@)),
            Err((at, error)) => first_wrong(variants_read(variants@), at as int, error.view()),
        },
{
    let mut parameters: Vec<Parameter> = Vec::new();
    let mut at: usize = 0;
    let ghost read = variants_read(variants@);
    while at < variants.len()
        invariant
            at <= variants.len(),
            read == variants_read(variants@),
            parameters@.len() == at,
            forall|i: int|
                #![trigger read[i]]
                0 <= i < at ==> parameter_of(read[i]) == Ok::<ParameterView, ParamFault>(parameters@[i].view()),
        decreases variants.len() - at,
    {
        assert(read[at as int] == variants@[at as int].view());
        match read_variant(&variants[at]) {
            Ok(parameter) => parameters.push(parameter),
            Err(error) => return Err((at, error)),
        }
        at = at + 1;
    }
    Ok(parameters)
}

/// Only integers and durations have bounds: of any other type, a declaration with bounds is refused.
pub proof fn bounds_need_a_number(variant: VariantView)
    ensures
        parameter_of(variant) matches Ok(parameter) ==> (parameter.args.bound is Some <==> !(parameter.check
            is Unbounded)) && (parameter.args.bound is Some ==> parameter.args.value_type == ParamType::VarInt
            || parameter.args.value_type == ParamType::Duration),
{
}

/// Every value type is declared by its own name.
pub proof fn type_names_are_read_back(value_type: ParamType)
    ensures
        type_of(ValueView::Path(name_for(value_type))) == Ok::<ParamType, ParamFault>(value_type),
{
    reveal_strlit("VarInt");
    reveal_strlit("Boolean");
    reveal_strlit("Bytes");
    reveal_strlit("Duration");
    reveal_strlit("ResetToken");
    reveal_strlit("ConnectionId");
    reveal_strlit("PreferredAddress");
    assert("VarInt"@.len() == 6 && "Boolean"@.len() == 7 && "Bytes"@.len() == 5 && "Duration"@.len() == 8);
    assert("ResetToken"@.len() == 10 && "ConnectionId"@.len() == 12 && "PreferredAddress"@.len() == 16);
}

/// A variant without a discriminant, or without an attribute that declares it, is refused.
pub proof fn incomplete_variant_is_refused(variant: VariantView)
    requires
        variant.discriminant is None || forall|index: int|
            #![trigger variant.attributes[index]]
            0 <= index < variant.attributes.len() ==> variant.attributes[index].path != "param"@,
    ensures
        parameter_of(variant) is Err,
{
    if variant.discriminant is Some {
        assert forall|index: int| !#[trigger] declares(variant.attributes, index) by {
            if 0 <= index < variant.attributes.len() {
                assert(variant.attributes[index].path != "param"@);
            }
        }
    }
}

/// Whether the parameter at `index` is the first whose identifier is `id`, where `value` gives the number
/// that the text of a discriminant stands for.
pub open spec fn first_with(
    parameters: Seq<ParameterView>,
    value: spec_fn(Seq<char>) -> u64,
    id: u64,
    index: int,
) -> bool {
    &&& 0 <= index < parameters.len()
    &&& value(parameters[index].discriminant) == id
    &&& forall|earlier: int|
        #![trigger parameters[earlier]]
        0 <= earlier < index ==> value(parameters[earlier].discriminant) != id
}

/// The parameter that an identifier is read as: a match tries the discriminants in the order of the
/// declaration. Any other identifier is unknown.
pub open spec fn parameter_for(
    parameters: Seq<ParameterView>,
    value: spec_fn(Seq<char>) -> u64,
    id: u64,
) -> Option<int> {
    if exists|index: int| #[trigger] first_with(parameters, value, id, index) {
        Some(choose|index: int| #[trigger] first_with(parameters, value, id, index))
    } else {
        None
    }
}

/// The identifier that a parameter is written as.
pub open spec fn identifier_of(parameters: Seq<ParameterView>, value: spec_fn(Seq<char>) -> u64, index: int) -> VarInt {
    VarInt { value: value(parameters[index].discriminant) }
}

/// Whether what the discriminants of parameters stand for can be encoded and is distinct.
pub open spec fn distinct_identifiers(parameters: Seq<ParameterView>, value: spec_fn(Seq<char>) -> u64) -> bool {
    &&& forall|i: int|
        #![trigger parameters[i]]
        0 <= i < parameters.len() ==> value(parameters[i].discriminant) <= VARINT_MAX
    &&& forall|i: int, j: int|
        #![trigger parameters[i], parameters[j]]
        0 <= i < j < parameters.len() ==> value(parameters[i].discriminant) != value(parameters[j].discriminant)
}

/// Whatever the discriminants of declared variants stand for, if that is distinct and can be encoded, then
/// every parameter is read back from the identifier that it is written as, under the name and with the
/// discriminant of its variant; and an identifier of no parameter is unknown.
pub proof fn identifiers_are_read_back(
    variants: Seq<VariantView>,
    parameters: Seq<ParameterView>,
    value: spec_fn(Seq<char>) -> u64,
    index: int,
    id: u64,
)
    requires
        all_declared(variants, parameters),
        0 <= index < variants.len(),
        distinct_identifiers(parameters, value),
    ensures
        parameters[index].ident == variants[index].ident,
        variants[index].discriminant == Some(parameters[index].discriminant),
        identifier_of(parameters, value, index).wf(),
        parameter_for(parameters, value, identifier_of(parameters, value, index).value) == Some(index),
        match parameter_for(parameters, value, id) {
            Some(found) => 0 <= found < parameters.len() && identifier_of(parameters, value, found).value == id,
            None => forall|i: int|
                #![trigger parameters[i]]
                0 <= i < parameters.len() ==> value(parameters[i].discriminant) != id,
        },
{
    assert(parameter_of(variants[index]) == Ok::<ParameterView, ParamFault>(parameters[index]));
    let written = value(parameters[index].discriminant);
    assert(first_with(parameters, value, written, index));
    assert forall|other: int| #[trigger] first_with(parameters, value, written, other) implies other == index by {
        if other < index {
            assert(value(parameters[other].discriminant) != value(parameters[index].discriminant));
        }
        if index < other {
            assert(value(parameters[index].discriminant) != value(parameters[other].discriminant));
        }
    }
    if exists|i: int| #![trigger parameters[i]] 0 <= i < parameters.len() && value(parameters[i].discriminant) == id {
        let i = choose|i: int|
            #![trigger parameters[i]]
            0 <= i < parameters.len() && value(parameters[i].discriminant) == id;
        lemma_first_with(parameters, value, id, i);
    }
}

proof fn lemma_first_with(parameters: Seq<ParameterView>, value: spec_fn(Seq<char>) -> u64, id: u64, index: int)
    requires
        0 <= index < parameters.len(),
        value(parameters[index].discriminant) == id,
    ensures
        exists|first: int| #[trigger] first_with(parameters, value, id, first),
    decreases index,
{
    if exists|i: int| #![trigger parameters[i]] 0 <= i < index && value(parameters[i].discriminant) == id {
        let i = choose|i: int| #![trigger parameters[i]] 0 <= i < index && value(parameters[i].discriminant) == id;
        lemma_first_with(parameters, value, id, i);
    } else {
        assert(first_with(parameters, value, id, index));
    }
}

/// The value types are declared by these names, and by no others.
pub proof fn value_types_have_these_names(text: Seq<char>)
    ensures
        type_of(ValueView::Path("VarInt"@)) == Ok::<ParamType, ParamFault>(ParamType::VarInt),
        type_of(ValueView::Path("Boolean"@)) == Ok::<ParamType, ParamFault>(ParamType::Boolean),
        type_of(ValueView::Path("Bytes"@)) == Ok::<ParamType, ParamFault>(ParamType::Bytes),
        type_of(ValueView::Path("Duration"@)) == Ok::<ParamType, ParamFault>(ParamType::Duration),
        type_of(ValueView::Path("ResetToken"@)) == Ok::<ParamType, ParamFault>(ParamType::ResetToken),
        type_of(ValueView::Path("ConnectionId"@)) == Ok::<ParamType, ParamFault>(ParamType::ConnectionId),
        type_of(ValueView::Path("PreferredAddress"@)) == Ok::<ParamType, ParamFault>(ParamType::PreferredAddress),
        type_of(ValueView::Path(text)) is Ok ==> text == "VarInt"@ || text == "Boolean"@ || text == "Bytes"@ || text
            == "Duration"@ || text == "ResetToken"@ || text == "ConnectionId"@ || text == "PreferredAddress"@,
        type_of(ValueView::Path(text)) is Err ==> type_of(ValueView::Path(text)) == Err::<ParamType, ParamFault>(
            ParamFault::UnsupportedValueType(text),
        ),
        type_of(ValueView::Range(text)) is Err && type_of(ValueView::Other(text)) is Err,
{
    type_names_are_read_back(ParamType::VarInt);
    type_names_are_read_back(ParamType::Boolean);
    type_names_are_read_back(ParamType::Bytes);
    type_names_are_read_back(ParamType::Duration);
    type_names_are_read_back(ParamType::ResetToken);
    type_names_are_read_back(ParamType::ConnectionId);
    type_names_are_read_back(ParamType::PreferredAddress);
}

/// Any expression can be a default, only a range can be a bound, and both are kept as they are written.
pub proof fn values_are_kept_as_written(text: Seq<char>)
    ensures
        default_of(ValueView::Path(text)) == Ok::<Seq<char>, ParamFault>(text),
        default_of(ValueView::Range(text)) == Ok::<Seq<char>, ParamFault>(text),
        default_of(ValueView::Other(text)) == Ok::<Seq<char>, ParamFault>(text),
        bound_of(ValueView::Range(text)) == Ok::<Seq<char>, ParamFault>(text),
        bound_of(ValueView::Path(text)) is Err && bound_of(ValueView::Other(text)) is Err,
        default_of(ValueView::Unreadable(text)) == Err::<Seq<char>, ParamFault>(ParamFault::Syntax(text)),
        bound_of(ValueView::Unreadable(text)) == Err::<Seq<char>, ParamFault>(ParamFault::Syntax(text)),
        type_of(ValueView::Unreadable(text)) == Err::<ParamType, ParamFault>(ParamFault::Syntax(text)),
{
}

/// Whether an argument has one of the names, with a value that can stand for it.
spec fn sound(argument: ArgumentView) -> bool {
    ||| argument.name == "value_type"@ && type_of(argument.value) is Ok
    ||| argument.name == "default"@ && default_of(argument.value) is Ok
    ||| argument.name == "bound"@ && bound_of(argument.value) is Ok
}

proof fn lemma_names_differ()
    ensures
        "value_type"@ != "default"@,
        "value_type"@ != "bound"@,
        "default"@ != "bound"@,
{
    reveal_strlit("value_type");
    reveal_strlit("default");
    reveal_strlit("bound");
    assert("value_type"@.len() == 10 && "default"@.len() == 7 && "bound"@.len() == 5);
}

/// Arguments are accepted exactly if each is a value type, a default or a bound with a value that can stand for
/// it, and no two are the same. What is kept of them is what the argument of that name says.
pub proof fn arguments_say_what_is_declared(arguments: Seq<ArgumentView>)
    ensures
        arguments_of(arguments) is Ok <==> {
            &&& forall|i: int|
                #![trigger arguments[i]]
                0 <= i < arguments.len() ==> {
                    ||| arguments[i].name == "value_type"@ && type_of(arguments[i].value) is Ok
                    ||| arguments[i].name == "default"@ && default_of(arguments[i].value) is Ok
                    ||| arguments[i].name == "bound"@ && bound_of(arguments[i].value) is Ok
                }
            &&& forall|i: int, j: int|
                #![trigger arguments[i], arguments[j]]
                0 <= i < j < arguments.len() ==> arguments[i].name != arguments[j].name
        },
        arguments_of(arguments) matches Ok(args) ==> {
            &&& args.value_type is Some <==> exists|i: int|
                #![trigger arguments[i]]
                0 <= i < arguments.len() && arguments[i].name == "value_type"@
            &&& args.default is Some <==> exists|i: int|
                #![trigger arguments[i]]
                0 <= i < arguments.len() && arguments[i].name == "default"@
            &&& args.bound is Some <==> exists|i: int|
                #![trigger arguments[i]]
                0 <= i < arguments.len() && arguments[i].name == "bound"@
            &&& forall|i: int|
                #![trigger arguments[i]]
                0 <= i < arguments.len() && arguments[i].name == "value_type"@ ==> type_of(arguments[i].value) == Ok::<
                    ParamType,
                    ParamFault,
                >(args.value_type->Some_0)
            &&& forall|i: int|
                #![trigger arguments[i]]
                0 <= i < arguments.len() && arguments[i].name == "default"@ ==> default_of(arguments[i].value) == Ok::<
                    Seq<char>,
                    ParamFault,
                >(args.default->Some_0)
            &&& forall|i: int|
                #![trigger arguments[i]]
                0 <= i < arguments.len() && arguments[i].name == "bound"@ ==> bound_of(arguments[i].value) == Ok::<
                    Seq<char>,
                    ParamFault,
                >(args.bound->Some_0)
        },
    decreases arguments.len(),
{
    lemma_names_differ();
    if arguments.len() > 0 {
        let rest = arguments.drop_last();
        let last = arguments.len() - 1;
        arguments_say_what_is_declared(rest);
        assert(arguments[last] == arguments.last());
        assert forall|i: int| #![trigger arguments[i]] 0 <= i < last implies arguments[i] == rest[i] by {}
        assert forall|i: int| #![trigger rest[i]] 0 <= i < last implies arguments[i] == rest[i] by {}
        if arguments_of(rest) is Ok {
            let args = arguments_of(rest)->Ok_0;
            if arguments_of(arguments) is Ok {
                assert forall|i: int, j: int|
                    #![trigger arguments[i], arguments[j]]
                    0 <= i < j < arguments.len() implies arguments[i].name != arguments[j].name by {
                    if j < last {
                        assert(rest[i].name != rest[j].name);
                    }
                }
            } else if sound(arguments.last()) {
                let i = choose|i: int| #![trigger rest[i]] 0 <= i < rest.len() && rest[i].name == arguments.last().name;
                assert(arguments[i].name == arguments[last].name);
            } else {
                assert(!sound(arguments[last]));
            }
        } else if forall|i: int| #![trigger arguments[i]] 0 <= i < arguments.len() ==> sound(arguments[i]) {
            assert forall|i: int| #![trigger rest[i]] 0 <= i < rest.len() implies {
                ||| rest[i].name == "value_type"@ && type_of(rest[i].value) is Ok
                ||| rest[i].name == "default"@ && default_of(rest[i].value) is Ok
                ||| rest[i].name == "bound"@ && bound_of(rest[i].value) is Ok
            } by {
                assert(sound(arguments[i]));
            }
            let (i, j) = choose|i: int, j: int|
                #![trigger rest[i], rest[j]]
                0 <= i < j < rest.len() && rest[i].name == rest[j].name;
            assert(arguments[i].name == arguments[j].name);
        } else {
            let i = choose|i: int| #![trigger arguments[i]] 0 <= i < arguments.len() && !sound(arguments[i]);
            assert(!sound(arguments[i]));
        }
    }
}

/// A variant is declared by its first attribute with the right path, which must be read to its end and say a
/// value type. The bound is checked as a number or as milliseconds, by that type.
pub proof fn variant_is_declared_by_its_attribute(variant: VariantView, index: int)
    requires
        0 <= index < variant.attributes.len(),
        variant.attributes[index].path == "param"@,
        forall|earlier: int|
            #![trigger variant.attributes[earlier]]
            0 <= earlier < index ==> variant.attributes[earlier].path != "param"@,
    ensures
        ({
            let attribute = variant.attributes[index];
            let args = arguments_of(attribute.arguments);
            let bounded = args->Ok_0.bound is Some;
            let value_type = args->Ok_0.value_type;
            &&& parameter_of(variant) is Ok <==> {
                &&& variant.discriminant is Some
                &&& args is Ok
                &&& attribute.broken_off is None
                &&& value_type is Some
                &&& bounded ==> value_type == Some(ParamType::VarInt) || value_type == Some(ParamType::Duration)
            }
            &&& (parameter_of(variant) matches Ok(parameter) ==> {
                &&& parameter.ident == variant.ident
                &&& variant.discriminant == Some(parameter.discriminant)
                &&& value_type == Some(parameter.args.value_type)
                &&& parameter.args.default == args->Ok_0.default
                &&& parameter.args.bound == args->Ok_0.bound
                &&& parameter.check is Unbounded <==> !bounded
                &&& parameter.check is Integer <==> bounded && value_type == Some(ParamType::VarInt)
                &&& parameter.check is Milliseconds <==> bounded && value_type == Some(ParamType::Duration)
            })
        }),
{
    assert(declares(variant.attributes, index));
    assert forall|other: int| #[trigger] declares(variant.attributes, other) implies other == index by {
        if other < index {
            assert(variant.attributes[other].path != "param"@);
        }
        if index < other {
            assert(variant.attributes[index].path == "param"@);
        }
    }
}

/// What is read of a declaration is all that it says.
pub proof fn declarations_are_read_as_they_are(variant: VariantDecl, attribute: Attribute, parameter: Parameter, text: String)
    ensures
        ValueExpr::Path(text).view() == ValueView::Path(text@),
        ValueExpr::Range(text).view() == ValueView::Range(text@),
        ValueExpr::Other(text).view() == ValueView::Other(text@),
        ValueExpr::Unreadable(text).view() == ValueView::Unreadable(text@),
        variant.view().ident == variant.ident@,
        variant.view().discriminant == match variant.discriminant {
            Some(discriminant) => Some(discriminant@),
            None => None,
        },
        variant.view().attributes.len() == variant.attributes@.len(),
        forall|i: int|
            #![trigger variant.attributes@[i]]
            0 <= i < variant.attributes@.len() ==> variant.view().attributes[i] == variant.attributes@[i].view(),
        attribute.view().path == attribute.path@,
        attribute.view().arguments.len() == attribute.arguments@.len(),
        forall|i: int|
            #![trigger attribute.arguments@[i]]
            0 <= i < attribute.arguments@.len() ==> attribute.view().arguments[i].name == attribute.arguments@[i].name@
                && attribute.view().arguments[i].value == attribute.arguments@[i].value.view(),
        attribute.view().broken_off == match attribute.broken_off {
            Some(reason) => Some(reason@),
            None => None,
        },
        parameter.view().ident == parameter.ident@,
        parameter.view().discriminant == parameter.discriminant@,
        parameter.view().check == parameter.check,
        parameter.view().args.value_type == parameter.args.value_type,
        parameter.view().args.default == match parameter.args.default {
            Some(default) => Some(default@),
            None => None,
        },
        parameter.view().args.bound == match parameter.args.bound {
            Some(bound) => Some(bound@),
            None => None,
        },
{
}

/// What is read of an error is all that it says.
pub proof fn faults_are_read_as_they_are(error: ParamError)
    ensures
        error is MissingDiscriminant <==> error.view() is MissingDiscriminant,
        error is MissingParam <==> error.view() is MissingParam,
        error is DuplicateValueType <==> error.view() is DuplicateValueType,
        error is DuplicateDefault <==> error.view() is DuplicateDefault,
        error is DuplicateBound <==> error.view() is DuplicateBound,
        error is UnsupportedArgument <==> error.view() is UnsupportedArgument,
        error is ValueTypeNotIdent <==> error.view() is ValueTypeNotIdent,
        error is BoundNotRange <==> error.view() is BoundNotRange,
        error is MissingValueType <==> error.view() is MissingValueType,
        error is BoundNotApplicable <==> error.view() is BoundNotApplicable,
        error matches ParamError::UnsupportedValueType(name) ==> error.view() == ParamFault::UnsupportedValueType(name@),
        error matches ParamError::Syntax(reason) ==> error.view() == ParamFault::Syntax(reason@),
{
}

} // verus!
