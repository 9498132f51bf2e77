//! Names of objects as statements give them.
use vstd::prelude::*;

use crate::error::{report, user_error, Report, UserError};
use crate::schema::{duplicate_all, views, Duplicate};

verus! {

/// How an identifier was quoted.
#[derive(Clone, Copy, Debug, PartialEq, Eq, Structural)]
pub enum QuoteStyle {
    Bare,
    Double,
    Single,
    Backtick,
    Bracket,
}

/// An identifier: its value and how it was quoted.
#[derive(Debug)]
pub struct Ident {
    pub value: String,
    pub quote_style: QuoteStyle,
}

/// What an [`Ident`] stands for.
pub struct IdentModel {
    pub value: Seq<char>,
    pub quote_style: QuoteStyle,
}

impl View for Ident {
    type V = IdentModel;

    open spec fn view(&self) -> IdentModel {
        IdentModel { value: self.value@, quote_style: self.quote_style }
    }
}

impl Duplicate for Ident {
    fn duplicate(&self) -> (copy: Self) {
        Ident { value: self.value.clone(), quote_style: self.quote_style }
    }
}

/// A part of an object's name: an identifier, or a call that gives one, by its text.
#[derive(Debug)]
pub enum ObjectNamePart {
    Identifier(Ident),
    Function(String),
}

/// What an [`ObjectNamePart`] stands for.
pub enum PartModel {
    Identifier(IdentModel),
    Function(Seq<char>),
}

impl View for ObjectNamePart {
    type V = PartModel;

    open spec fn view(&self) -> PartModel {
        match self {
            ObjectNamePart::Identifier(ident) => PartModel::Identifier(ident@),
            ObjectNamePart::Function(text) => PartModel::Function(text@),
        }
    }
}

/// The name of an object, of one part or several.
#[derive(Debug)]
pub struct ObjectName(pub Vec<ObjectNamePart>);

impl View for ObjectName {
    type V = Seq<PartModel>;

    open spec fn view(&self) -> Seq<PartModel> {
        views(self.0@)
    }
}

impl Duplicate for ObjectNamePart {
    fn duplicate(&self) -> (copy: Self) {
        match self {
            ObjectNamePart::Identifier(ident) => ObjectNamePart::Identifier(ident.duplicate()),
            ObjectNamePart::Function(text) => ObjectNamePart::Function(text.clone()),
        }
    }
}

impl Duplicate for ObjectName {
    fn duplicate(&self) -> (copy: Self) {
        ObjectName(duplicate_all(&self.0))
    }
}

/// The name of a schema, with or without the role that owns it.
#[derive(Debug)]
pub enum SchemaName {
    Simple(ObjectName),
    UnnamedAuthorization(Ident),
    NamedAuthorization(ObjectName, Ident),
}

/// What a [`SchemaName`] stands for.
pub enum SchemaNameModel {
    Simple(Seq<PartModel>),
    UnnamedAuthorization(IdentModel),
    NamedAuthorization(Seq<PartModel>, IdentModel),
}

impl View for SchemaName {
    type V = SchemaNameModel;

    open spec fn view(&self) -> SchemaNameModel {
        match self {
            SchemaName::Simple(name) => SchemaNameModel::Simple(name@),
            SchemaName::UnnamedAuthorization(role) => SchemaNameModel::UnnamedAuthorization(role@),
            SchemaName::NamedAuthorization(name, role) => SchemaNameModel::NamedAuthorization(
                name@,
                role@,
            ),
        }
    }
}

/// How `sqlparser` writes an identifier in quotes, with quotes inside it escaped.
pub uninterp spec fn quoted_text(value: Seq<char>, quote: char) -> Seq<char>;

/// `Display` of `sqlparser::ast::Ident` with a quote style. Another quote than these four
/// is left out: there it panics.
#[verifier::external_body]
fn write_quoted(value: &str, quote: char) -> (text: String)
    requires
        quote == '"' || quote == '\'' || quote == '`' || quote == '[',
    ensures
        text@ == quoted_text(value@, quote),
{
    sqlparser::ast::Ident::with_quote(quote, value).to_string()
}

/// The text of an identifier: its value, in its quotes where it has some.
pub open spec fn ident_text(ident: IdentModel) -> Seq<char> {
    match ident.quote_style {
        QuoteStyle::Bare => ident.value,
        QuoteStyle::Double => quoted_text(ident.value, '"'),
        QuoteStyle::Single => quoted_text(ident.value, '\''),
        QuoteStyle::Backtick => quoted_text(ident.value, '`'),
        QuoteStyle::Bracket => quoted_text(ident.value, '['),
    }
}

/// The text of a part of a name.
pub open spec fn part_text(part: PartModel) -> Seq<char> {
    match part {
        PartModel::Identifier(ident) => ident_text(ident),
        PartModel::Function(text) => text,
    }
}

/// The text of a name: its parts with dots between them.
pub open spec fn name_text(parts: Seq<PartModel>) -> Seq<char>
    decreases parts.len(),
{
    if parts.len() == 0 {
        seq![]
    } else if parts.len() == 1 {
        part_text(parts[0])
    } else {
        name_text(parts.drop_last()) + seq!['.'] + part_text(parts.last())
    }
}

/// The text of an object's name; a name has at least one part.
pub open spec fn object_name(parts: Seq<PartModel>) -> Result<Seq<char>, Report> {
    if parts.len() == 0 {
        Err(report("42601"@, "object name is empty"@))
    } else {
        Ok(name_text(parts))
    }
}

/// The name of a schema: the given name or, without one, the role's.
pub open spec fn schema_name_of(name: SchemaNameModel) -> Result<Seq<char>, Report> {
    match name {
        SchemaNameModel::Simple(parts) => object_name(parts),
        SchemaNameModel::NamedAuthorization(parts, _) => object_name(parts),
        SchemaNameModel::UnnamedAuthorization(role) => Ok(role.value),
    }
}

/// What is seen of a fallible text.
pub open spec fn seen_text(result: Result<String, UserError>) -> Result<Seq<char>, Report> {
    match result {
        Ok(text) => Ok(text@),
        Err(error) => Err(error@),
    }
}

impl Ident {
    /// The text of the identifier.
    pub fn to_text(&self) -> (text: String)
        ensures
            text@ == ident_text(self@),
    {
        match self.quote_style {
            QuoteStyle::Bare => self.value.clone(),
            QuoteStyle::Double => write_quoted(self.value.as_str(), '"'),
            QuoteStyle::Single => write_quoted(self.value.as_str(), '\''),
            QuoteStyle::Backtick => write_quoted(self.value.as_str(), '`'),
            QuoteStyle::Bracket => write_quoted(self.value.as_str(), '['),
        }
    }
}

impl ObjectNamePart {
    /// The text of the part.
    pub fn to_text(&self) -> (text: String)
        ensures
            text@ == part_text(self@),
    {
        match self {
            ObjectNamePart::Identifier(ident) => ident.to_text(),
            ObjectNamePart::Function(text) => text.clone(),
        }
    }
}

impl ObjectName {
    /// The text of the name.
    pub fn to_text(&self) -> (text: String)
        ensures
            text@ == name_text(self@),
    {
        let mut text = String::new();
        let mut i: usize = 0;
        assert(self@.take(0) =~= seq![]);
        while i < self.0.len()
            invariant
                i <= self.0@.len(),
                text@ == name_text(self@.take(i as int)),
            decreases self.0@.len() - i,
        {
            let part = self.0[i].to_text();
            assert(self@.take(i + 1).drop_last() =~= self@.take(i as int));
            assert(self@.take(i + 1).last() == self.0@[i as int]@);
            if i > 0 {
                text.push('.');
            }
            text.push_str(part.as_str());
            assert(text@ =~= name_text(self@.take(i + 1)));
            i += 1;
        }
        assert(self@.take(i as int) =~= self@);
        text
    }
}

/// The text of an object's name.
pub fn object_name_to_string(name: &ObjectName) -> (result: Result<String, UserError>)
    ensures
        seen_text(result) == object_name(name@),
{
    if name.0.len() == 0 {
        return Err(user_error("42601", "object name is empty"));
    }
    Ok(name.to_text())
}

/// The name of a schema.
pub fn schema_name_to_string(schema_name: &SchemaName) -> (result: Result<String, UserError>)
    ensures
        seen_text(result) == schema_name_of(schema_name@),
{
    match schema_name {
        SchemaName::Simple(name) => object_name_to_string(name),
        SchemaName::NamedAuthorization(name, _) => object_name_to_string(name),
        SchemaName::UnnamedAuthorization(ident) => Ok(ident.value.clone()),
    }
}

/// Texts with a mark between them.
pub open spec fn joined(names: Seq<Seq<char>>, mark: Seq<char>) -> Seq<char>
    decreases names.len(),
{
    if names.len() == 0 {
        seq![]
    } else if names.len() == 1 {
        names[0]
    } else {
        joined(names.drop_last(), mark) + mark + names.last()
    }
}

/// Texts with a mark between them.
pub fn join_names(names: &Vec<String>, mark: &str) -> (text: String)
    ensures
        text@ == joined(views(names@), mark@),
{
    let ghost all = views(names@);
    let mut text = String::new();
    let mut i: usize = 0;
    assert(text@ =~= joined(all.take(0), mark@));
    while i < names.len()
        invariant
            i <= names@.len(),
            all == views(names@),
            text@ == joined(all.take(i as int), mark@),
        decreases names@.len() - i,
    {
        assert(all.take(i + 1).drop_last() =~= all.take(i as int));
        assert(all.take(i + 1).last() == names@[i as int]@);
        if i > 0 {
            text.push_str(mark);
        } else {
            assert(text@ =~= Seq::<char>::empty());
            assert(Seq::<char>::empty() + names@[0]@ =~= names@[0]@);
        }
        text.push_str(names[i].as_str());
        i += 1;
    }
    assert(all.take(i as int) =~= all);
    text
}

} // verus!
