//! Lines of data: how they are taken from bytes, split into fields, and described by statements.
use vstd::prelude::*;

use crate::error::{report, unsupported, unsupported_report, user_error, Report, UserError};
use crate::schema::{seen, seen_all, views};
use crate::server::literals::doubled;
use crate::text::{
    chars_of, lower, same_but_for_case, same_text, split, split_text, texts, three_texts,
};

verus! {

/// The form of lines of data.
#[derive(Clone, Copy, Debug, PartialEq, Eq, Structural)]
pub enum CopyInFormat {
    Text,
    Csv,
}

/// How the lines of data are written.
#[derive(Debug)]
pub struct CopyInOptions {
    pub format: CopyInFormat,
    pub delimiter: char,
    pub null: String,
    pub header: bool,
    pub header_pending: bool,
    pub quote: char,
    pub escape: char,
}

/// What a [`CopyInOptions`] says.
pub struct OptionsModel {
    pub format: CopyInFormat,
    pub delimiter: char,
    pub null: Seq<char>,
    pub header: bool,
    pub header_pending: bool,
    pub quote: char,
    pub escape: char,
}

impl View for CopyInOptions {
    type V = OptionsModel;

    open spec fn view(&self) -> OptionsModel {
        OptionsModel {
            format: self.format,
            delimiter: self.delimiter,
            null: self.null@,
            header: self.header,
            header_pending: self.header_pending,
            quote: self.quote,
            escape: self.escape,
        }
    }
}

/// An option of `COPY`.
#[derive(Debug)]
pub enum CopyOption {
    Format { name: String },
    Freeze,
    Delimiter { delimiter: char },
    Null { null: String },
    Header { header: bool },
    Quote { quote: char },
    Escape { escape: char },
    Encoding { encoding: String },
    /// Quotes or nulls by force.
    Force,
}

/// What a [`CopyOption`] says.
pub enum CopyOptionModel {
    Format { name: Seq<char> },
    Freeze,
    Delimiter { delimiter: char },
    Null { null: Seq<char> },
    Header { header: bool },
    Quote { quote: char },
    Escape { escape: char },
    Encoding { encoding: Seq<char> },
    Force,
}

impl View for CopyOption {
    type V = CopyOptionModel;

    open spec fn view(&self) -> CopyOptionModel {
        match *self {
            CopyOption::Format { name } => CopyOptionModel::Format {
                name: name@,
            },
            CopyOption::Freeze => CopyOptionModel::Freeze,
            CopyOption::Delimiter { delimiter } => CopyOptionModel::Delimiter {
                delimiter,
            },
            CopyOption::Null { null } => CopyOptionModel::Null {
                null: null@,
            },
            CopyOption::Header { header } => CopyOptionModel::Header {
                header,
            },
            CopyOption::Quote { quote } => CopyOptionModel::Quote {
                quote,
            },
            CopyOption::Escape { escape } => CopyOptionModel::Escape {
                escape,
            },
            CopyOption::Encoding { encoding } => CopyOptionModel::Encoding {
                encoding: encoding@,
            },
            CopyOption::Force => CopyOptionModel::Force,
        }
    }
}

/// An option behind the word `CSV`.
#[derive(Debug)]
pub enum CopyCsvOption {
    Header,
    Quote { quote: char },
    Escape { escape: char },
    /// Quotes or nulls by force.
    Force,
}

/// What a [`CopyCsvOption`] says.
pub enum CsvOptionModel {
    Header,
    Quote { quote: char },
    Escape { escape: char },
    Force,
}

impl View for CopyCsvOption {
    type V = CsvOptionModel;

    open spec fn view(&self) -> CsvOptionModel {
        match *self {
            CopyCsvOption::Header => CsvOptionModel::Header,
            CopyCsvOption::Quote { quote } => CsvOptionModel::Quote {
                quote,
            },
            CopyCsvOption::Escape { escape } => CsvOptionModel::Escape {
                escape,
            },
            CopyCsvOption::Force => CsvOptionModel::Force,
        }
    }
}

/// An option of `COPY` in its old form.
#[derive(Debug)]
pub enum CopyLegacyOption {
    Binary,
    Delimiter { delimiter: char },
    Null { null: String },
    Csv { options: Vec<CopyCsvOption> },
    /// Anything that is not supported.
    Other,
}

/// What a [`CopyLegacyOption`] says.
pub enum LegacyModel {
    Binary,
    Delimiter { delimiter: char },
    Null { null: Seq<char> },
    Csv { options: Seq<CsvOptionModel> },
    Other,
}

impl View for CopyLegacyOption {
    type V = LegacyModel;

    open spec fn view(&self) -> LegacyModel {
        match *self {
            CopyLegacyOption::Binary => LegacyModel::Binary,
            CopyLegacyOption::Delimiter { delimiter } => LegacyModel::Delimiter {
                delimiter,
            },
            CopyLegacyOption::Null { null } => LegacyModel::Null {
                null: null@,
            },
            CopyLegacyOption::Csv { options } => LegacyModel::Csv {
                options: views(options@),
            },
            CopyLegacyOption::Other => LegacyModel::Other,
        }
    }
}

/// How lines are written where nothing else is said.
pub open spec fn default_options() -> OptionsModel {
    OptionsModel {
        format: CopyInFormat::Text,
        delimiter: '\t',
        null: "\\N"@,
        header: false,
        header_pending: false,
        quote: '"',
        escape: '"',
    }
}

impl CopyInOptions {
    /// How lines are written where nothing else is said.
    pub fn new() -> (options: CopyInOptions)
        ensures
            options@ == default_options(),
    {
        CopyInOptions {
            format: CopyInFormat::Text,
            delimiter: '\t',
            null: "\\N".to_string(),
            header: false,
            header_pending: false,
            quote: '"',
            escape: '"',
        }
    }
}

/// What one more option makes of how lines are written.
pub open spec fn with_option(options: OptionsModel, option: CopyOptionModel) -> Result<
    OptionsModel,
    Report,
> {
    match option {
        CopyOptionModel::Format { name } => if lower(name) == lower("text"@) {
            Ok(OptionsModel { format: CopyInFormat::Text, delimiter: '\t', ..options })
        } else if lower(name) == lower("csv"@) {
            Ok(
                OptionsModel { format: CopyInFormat::Csv, delimiter: ',', null: seq![], ..options },
            )
        } else if lower(name) == lower("binary"@) {
            Err(unsupported_report("binary COPY is not supported yet"@))
        } else {
            Err(unsupported_report("COPY format '"@ + name + "' is not supported"@))
        },
        CopyOptionModel::Freeze => Ok(options),
        CopyOptionModel::Delimiter { delimiter } => Ok(OptionsModel { delimiter, ..options }),
        CopyOptionModel::Null { null } => Ok(OptionsModel { null, ..options }),
        CopyOptionModel::Header { header } => Ok(OptionsModel { header, ..options }),
        CopyOptionModel::Quote { quote } => Ok(OptionsModel { quote, ..options }),
        CopyOptionModel::Escape { escape } => Ok(OptionsModel { escape, ..options }),
        CopyOptionModel::Encoding { encoding } => if lower(encoding) == lower("utf8"@) || lower(
            encoding,
        ) == lower("utf-8"@) {
            Ok(options)
        } else {
            Err(unsupported_report("COPY ENCODING other than UTF8 is not supported yet"@))
        },
        CopyOptionModel::Force => Err(
            unsupported_report("COPY FORCE_* options are not supported yet"@),
        ),
    }
}

/// What one more option behind the word `CSV` makes of how lines are written.
pub open spec fn with_csv_option(options: OptionsModel, option: CsvOptionModel) -> Result<
    OptionsModel,
    Report,
> {
    match option {
        CsvOptionModel::Header => Ok(OptionsModel { header: true, ..options }),
        CsvOptionModel::Quote { quote } => Ok(OptionsModel { quote, ..options }),
        CsvOptionModel::Escape { escape } => Ok(OptionsModel { escape, ..options }),
        CsvOptionModel::Force => Err(
            unsupported_report("COPY CSV FORCE options are not supported yet"@),
        ),
    }
}

/// What options behind the word `CSV` make of how lines are written.
pub open spec fn with_csv_options(options: OptionsModel, more: Seq<CsvOptionModel>) -> Result<
    OptionsModel,
    Report,
>
    decreases more.len(),
{
    if more.len() == 0 {
        Ok(options)
    } else {
        match with_csv_option(options, more[0]) {
            Err(e) => Err(e),
            Ok(next) => with_csv_options(next, more.skip(1)),
        }
    }
}

/// What one more option in its old form makes of how lines are written.
pub open spec fn with_legacy_option(options: OptionsModel, option: LegacyModel) -> Result<
    OptionsModel,
    Report,
> {
    match option {
        LegacyModel::Binary => Err(unsupported_report("binary COPY is not supported yet"@)),
        LegacyModel::Delimiter { delimiter } => Ok(OptionsModel { delimiter, ..options }),
        LegacyModel::Null { null } => Ok(OptionsModel { null, ..options }),
        LegacyModel::Csv { options: more } => with_csv_options(
            OptionsModel {
                format: CopyInFormat::Csv,
                delimiter: ',',
                null: if options.null == "\\N"@ {
                    seq![]
                } else {
                    options.null
                },
                ..options
            },
            more,
        ),
        LegacyModel::Other => Err(unsupported_report("COPY legacy option is not supported yet"@)),
    }
}

/// What options make of how lines are written.
pub open spec fn with_options(options: OptionsModel, more: Seq<CopyOptionModel>) -> Result<
    OptionsModel,
    Report,
>
    decreases more.len(),
{
    if more.len() == 0 {
        Ok(options)
    } else {
        match with_option(options, more[0]) {
            Err(e) => Err(e),
            Ok(next) => with_options(next, more.skip(1)),
        }
    }
}

/// What options in their old form make of how lines are written.
pub open spec fn with_legacy_options(options: OptionsModel, more: Seq<LegacyModel>) -> Result<
    OptionsModel,
    Report,
>
    decreases more.len(),
{
    if more.len() == 0 {
        Ok(options)
    } else {
        match with_legacy_option(options, more[0]) {
            Err(e) => Err(e),
            Ok(next) => with_legacy_options(next, more.skip(1)),
        }
    }
}

/// How the lines of a `COPY` are written; fields are parted by a character of one byte.
pub open spec fn copy_options(options: Seq<CopyOptionModel>, legacy: Seq<LegacyModel>) -> Result<
    OptionsModel,
    Report,
> {
    match with_options(default_options(), options) {
        Err(e) => Err(e),
        Ok(first) => match with_legacy_options(first, legacy) {
            Err(e) => Err(e),
            Ok(found) => if found.delimiter as u32 >= 128 {
                Err(report("22023"@, "COPY delimiter must be a single-byte character"@))
            } else {
                Ok(found)
            },
        },
    }
}

impl CopyInOptions {
    fn take(&mut self, option: &CopyOption) -> (result: Result<(), UserError>)
        ensures
            match result {
                Ok(_) => with_option(old(self)@, option@) == Ok::<OptionsModel, Report>(
                    final(self)@,
                ),
                Err(e) => with_option(old(self)@, option@) == Err::<OptionsModel, Report>(e@),
            },
    {
        match option {
            CopyOption::Format { name } => {
                if same_but_for_case(name.as_str(), "text") {
                    self.format = CopyInFormat::Text;
                    self.delimiter = '\t';
                } else if same_but_for_case(name.as_str(), "csv") {
                    self.format = CopyInFormat::Csv;
                    self.delimiter = ',';
                    self.null = String::new();
                    assert(self.null@ =~= Seq::<char>::empty());
                } else if same_but_for_case(name.as_str(), "binary") {
                    return Err(unsupported("binary COPY is not supported yet"));
                } else {
                    let message = three_texts("COPY format '", name.as_str(), "' is not supported");
                    return Err(unsupported(message.as_str()));
                }
            },
            CopyOption::Freeze => {},
            CopyOption::Delimiter { delimiter } => {
                self.delimiter = *delimiter;
            },
            CopyOption::Null { null } => {
                self.null = null.clone();
            },
            CopyOption::Header { header } => {
                self.header = *header;
            },
            CopyOption::Quote { quote } => {
                self.quote = *quote;
            },
            CopyOption::Escape { escape } => {
                self.escape = *escape;
            },
            CopyOption::Encoding { encoding } => {
                if !same_but_for_case(encoding.as_str(), "utf8") && !same_but_for_case(
                    encoding.as_str(),
                    "utf-8",
                ) {
                    return Err(unsupported("COPY ENCODING other than UTF8 is not supported yet"));
                }
            },
            CopyOption::Force => {
                return Err(unsupported("COPY FORCE_* options are not supported yet"));
            },
        }
        Ok(())
    }

    fn take_csv(&mut self, more: &Vec<CopyCsvOption>) -> (result: Result<(), UserError>)
        ensures
            match result {
                Ok(_) => with_csv_options(old(self)@, views(more@)) == Ok::<OptionsModel, Report>(
                    final(self)@,
                ),
                Err(e) => with_csv_options(old(self)@, views(more@)) == Err::<
                    OptionsModel,
                    Report,
                >(e@),
            },
    {
        let ghost all = views(more@);
        let ghost start = self@;
        let mut i: usize = 0;
        assert(all.skip(0) =~= all);
        while i < more.len()
            invariant
                i <= more@.len(),
                all == views(more@),
                start == old(self)@,
                with_csv_options(start, all) == with_csv_options(self@, all.skip(i as int)),
            decreases more@.len() - i,
        {
            assert(all.skip(i as int)[0] == more@[i as int]@);
            assert(all.skip(i as int).skip(1) =~= all.skip(i + 1));
            match &more[i] {
                CopyCsvOption::Header => {
                    self.header = true;
                },
                CopyCsvOption::Quote { quote } => {
                    self.quote = *quote;
                },
                CopyCsvOption::Escape { escape } => {
                    self.escape = *escape;
                },
                CopyCsvOption::Force => {
                    return Err(unsupported("COPY CSV FORCE options are not supported yet"));
                },
            }
            i += 1;
        }
        Ok(())
    }

    fn take_legacy(&mut self, option: &CopyLegacyOption) -> (result: Result<(), UserError>)
        ensures
            match result {
                Ok(_) => with_legacy_option(old(self)@, option@) == Ok::<OptionsModel, Report>(
                    final(self)@,
                ),
                Err(e) => with_legacy_option(old(self)@, option@) == Err::<OptionsModel, Report>(
                    e@,
                ),
            },
    {
        match option {
            CopyLegacyOption::Binary => Err(unsupported("binary COPY is not supported yet")),
            CopyLegacyOption::Delimiter { delimiter } => {
                self.delimiter = *delimiter;
                Ok(())
            },
            CopyLegacyOption::Null { null } => {
                self.null = null.clone();
                Ok(())
            },
            CopyLegacyOption::Csv { options } => {
                self.format = CopyInFormat::Csv;
                self.delimiter = ',';
                if same_text(self.null.as_str(), "\\N") {
                    self.null = String::new();
                    assert(self.null@ =~= Seq::<char>::empty());
                }
                self.take_csv(options)
            },
            CopyLegacyOption::Other => Err(unsupported("COPY legacy option is not supported yet")),
        }
    }
}

/// How the lines of a `COPY` are written.
pub fn parse_copy_in_options(options: &Vec<CopyOption>, legacy_options: &Vec<CopyLegacyOption>) -> (
    result: Result<CopyInOptions, UserError>)
    ensures
        seen(result) == copy_options(views(options@), views(legacy_options@)),
{
    let ghost all = views(options@);
    let ghost legacy = views(legacy_options@);
    let mut parsed = CopyInOptions::new();
    let mut i: usize = 0;
    assert(all.skip(0) =~= all);
    while i < options.len()
        invariant
            i <= options@.len(),
            all == views(options@),
            with_options(default_options(), all) == with_options(parsed@, all.skip(i as int)),
        decreases options@.len() - i,
    {
        assert(all.skip(i as int)[0] == options@[i as int]@);
        assert(all.skip(i as int).skip(1) =~= all.skip(i + 1));
        match parsed.take(&options[i]) {
            Err(e) => {
                return Err(e);
            },
            Ok(_) => {},
        }
        i += 1;
    }
    let ghost first = parsed@;
    let mut j: usize = 0;
    assert(legacy.skip(0) =~= legacy);
    while j < legacy_options.len()
        invariant
            j <= legacy_options@.len(),
            legacy == views(legacy_options@),
            with_options(default_options(), views(options@)) == Ok::<OptionsModel, Report>(first),
            with_legacy_options(first, legacy) == with_legacy_options(
                parsed@,
                legacy.skip(j as int),
            ),
        decreases legacy_options@.len() - j,
    {
        assert(legacy.skip(j as int)[0] == legacy_options@[j as int]@);
        assert(legacy.skip(j as int).skip(1) =~= legacy.skip(j + 1));
        match parsed.take_legacy(&legacy_options[j]) {
            Err(e) => {
                return Err(e);
            },
            Ok(_) => {},
        }
        j += 1;
    }
    if parsed.delimiter as u32 >= 128 {
        return Err(user_error("22023", "COPY delimiter must be a single-byte character"));
    }
    Ok(parsed)
}

/// The fields of a line with quotes, from some place on: `field` is what the first of them has
/// so far, and `quoted` says whether that place is between quotes.
pub open spec fn csv_fields(
    text: Seq<char>,
    options: OptionsModel,
    at: int,
    quoted: bool,
    field: Seq<char>,
) -> Result<Seq<Seq<char>>, Report>
    decreases text.len() - at,
{
    if at >= text.len() {
        if quoted {
            Err(report("22P04"@, "unterminated CSV quoted field"@))
        } else {
            Ok(seq![field])
        }
    } else if quoted {
        if text[at] == options.escape && at + 1 < text.len() && text[at + 1] == options.quote {
            csv_fields(text, options, at + 2, true, field.push(options.quote))
        } else if text[at] == options.quote {
            csv_fields(text, options, at + 1, false, field)
        } else {
            csv_fields(text, options, at + 1, true, field.push(text[at]))
        }
    } else if text[at] == options.quote {
        csv_fields(text, options, at + 1, true, field)
    } else if text[at] == options.delimiter {
        match csv_fields(text, options, at + 1, false, seq![]) {
            Err(e) => Err(e),
            Ok(rest) => Ok(seq![field] + rest),
        }
    } else {
        csv_fields(text, options, at + 1, false, field.push(text[at]))
    }
}

/// The fields of a line with quotes.
pub fn split_csv_copy_fields(text: &str, options: &CopyInOptions) -> (result: Result<
    Vec<String>,
    UserError,
>)
    ensures
        seen_all(result) == csv_fields(text@, options@, 0, false, seq![]),
{
    let chars = chars_of(text);
    let mut fields: Vec<String> = Vec::new();
    let mut field = String::new();
    let mut quoted = false;
    let mut at: usize = 0;
    let ghost whole = csv_fields(text@, options@, 0, false, seq![]);
    assert(field@ =~= Seq::<char>::empty());
    proof {
        let rest = csv_fields(text@, options@, 0, false, seq![]);
        match rest {
            Ok(more) => {
                assert(views(fields@) + more =~= more);
            },
            Err(_) => {},
        }
    }
    while at < chars.len()
        invariant
            at <= chars@.len(),
            chars@ == text@,
            whole == csv_fields(text@, options@, 0, false, seq![]),
            whole == with_fields(
                views(fields@),
                csv_fields(text@, options@, at as int, quoted, field@),
            ),
        decreases chars@.len() - at,
    {
        let ch = chars[at];
        if quoted {
            if ch == options.escape && at + 1 < chars.len() && chars[at + 1] == options.quote {
                field.push(options.quote);
                at += 1;
            } else if ch == options.quote {
                quoted = false;
            } else {
                field.push(ch);
            }
        } else if ch == options.quote {
            quoted = true;
        } else if ch == options.delimiter {
            let ghost before = views(fields@);
            let ghost done = field@;
            let mut taken = String::new();
            std::mem::swap(&mut taken, &mut field);
            fields.push(taken);
            assert(views(fields@) =~= before.push(done));
            assert(field@ =~= Seq::<char>::empty());
            proof {
                match csv_fields(text@, options@, at + 1, false, seq![]) {
                    Ok(rest) => {
                        assert(before + (seq![done] + rest) =~= before.push(done) + rest);
                    },
                    Err(_) => {},
                }
            }
        } else {
            field.push(ch);
        }
        at += 1;
    }
    if quoted {
        return Err(user_error("22P04", "unterminated CSV quoted field"));
    }
    let ghost before = views(fields@);
    let ghost done = field@;
    fields.push(field);
    assert(views(fields@) =~= before + seq![done]);
    Ok(fields)
}

/// Fields with others in front of them.
pub open spec fn with_fields(fields: Seq<Seq<char>>, rest: Result<Seq<Seq<char>>, Report>) -> Result<
    Seq<Seq<char>>,
    Report,
> {
    match rest {
        Err(e) => Err(e),
        Ok(more) => Ok(fields + more),
    }
}

/// A field between quotes, in which quotes stand twice.
pub open spec fn csv_quoted(field: Seq<char>, quote: char) -> Seq<char> {
    seq![quote] + doubled(field, quote) + seq![quote]
}

/// A line of quoted fields.
pub open spec fn csv_line(fields: Seq<Seq<char>>, options: OptionsModel) -> Seq<char>
    decreases fields.len(),
{
    if fields.len() == 0 {
        seq![]
    } else if fields.len() == 1 {
        csv_quoted(fields[0], options.quote)
    } else {
        csv_quoted(fields[0], options.quote) + seq![options.delimiter] + csv_line(
            fields.skip(1),
            options,
        )
    }
}

/// Doubling works from the front as from the back.
proof fn lemma_doubled_front(text: Seq<char>, mark: char)
    requires
        text.len() > 0,
    ensures
        doubled(text, mark) == (if text[0] == mark {
            seq![mark, mark]
        } else {
            seq![text[0]]
        }) + doubled(text.skip(1), mark),
    decreases text.len(),
{
    if text.len() > 1 {
        lemma_doubled_front(text.drop_last(), mark);
        assert(text.drop_last().skip(1) =~= text.skip(1).drop_last());
        assert(doubled(text, mark) =~= (if text[0] == mark {
            seq![mark, mark]
        } else {
            seq![text[0]]
        }) + doubled(text.skip(1), mark));
    } else {
        assert(text.drop_last() =~= Seq::<char>::empty());
        assert(text.skip(1) =~= Seq::<char>::empty());
        assert(doubled(text, mark) =~= (if text[0] == mark {
            seq![mark, mark]
        } else {
            seq![text[0]]
        }) + doubled(text.skip(1), mark));
    }
}

/// A quoted field is read up to its closing quote, where no quote follows it.
proof fn lemma_quoted_field(
    line: Seq<char>,
    options: OptionsModel,
    at: int,
    left: Seq<char>,
    field: Seq<char>,
)
    requires
        options.escape == options.quote,
        0 <= at,
        at + doubled(left, options.quote).len() + 1 <= line.len(),
        line.subrange(at, at + doubled(left, options.quote).len()) == doubled(left, options.quote),
        line[at + doubled(left, options.quote).len()] == options.quote,
        at + doubled(left, options.quote).len() + 1 < line.len() ==> line[at + doubled(
            left,
            options.quote,
        ).len() + 1] != options.quote,
    ensures
        csv_fields(line, options, at, true, field) == csv_fields(
            line,
            options,
            at + doubled(left, options.quote).len() + 1,
            false,
            field + left,
        ),
    decreases left.len(),
{
    let quote = options.quote;
    let inner = doubled(left, quote);
    if left.len() == 0 {
        assert(field + left =~= field);
    } else {
        lemma_doubled_front(left, quote);
        let rest = doubled(left.skip(1), quote);
        assert(line[at] == line.subrange(at, at + inner.len())[0]);
        if left[0] == quote {
            assert(line[at + 1] == line.subrange(at, at + inner.len())[1]);
            assert(inner.len() == rest.len() + 2);
            assert(line.subrange(at + 2, at + 2 + rest.len()) =~= line.subrange(
                at,
                at + inner.len(),
            ).skip(2));
            assert(inner.skip(2) =~= rest);
            lemma_quoted_field(line, options, at + 2, left.skip(1), field.push(quote));
            assert(field.push(quote) + left.skip(1) =~= field + left);
        } else {
            assert(inner.len() == rest.len() + 1);
            assert(line.subrange(at + 1, at + 1 + rest.len()) =~= line.subrange(
                at,
                at + inner.len(),
            ).skip(1));
            assert(inner.skip(1) =~= rest);
            lemma_quoted_field(line, options, at + 1, left.skip(1), field.push(left[0]));
            assert(field.push(left[0]) + left.skip(1) =~= field + left);
        }
    }
}

/// A line of quoted fields is split into just these fields.
pub proof fn law_quoted_fields_come_back(fields: Seq<Seq<char>>, options: OptionsModel)
    requires
        fields.len() > 0,
        options.escape == options.quote,
        options.delimiter != options.quote,
    ensures
        csv_fields(csv_line(fields, options), options, 0, false, seq![]) == Ok::<
            Seq<Seq<char>>,
            Report,
        >(fields),
{
    let line = csv_line(fields, options);
    assert(line.subrange(0, line.len() as int) =~= line);
    lemma_line_of_fields(line, fields, options, 0);
}

proof fn lemma_line_of_fields(
    line: Seq<char>,
    fields: Seq<Seq<char>>,
    options: OptionsModel,
    at: int,
)
    requires
        fields.len() > 0,
        options.escape == options.quote,
        options.delimiter != options.quote,
        0 <= at <= line.len(),
        line.subrange(at, line.len() as int) == csv_line(fields, options),
    ensures
        csv_fields(line, options, at, false, seq![]) == Ok::<Seq<Seq<char>>, Report>(fields),
    decreases fields.len(),
{
    let quote = options.quote;
    let inner = doubled(fields[0], quote);
    let rest = line.subrange(at, line.len() as int);
    let first = csv_quoted(fields[0], quote);
    assert(first.len() == inner.len() + 2);
    assert(rest == csv_line(fields, options));
    assert(rest.len() >= first.len());
    assert forall|k: int| 0 <= k < first.len() implies #[trigger] first[k] == line[at + k] by {
        assert(rest[k] == line[at + k]);
        if fields.len() > 1 {
            let head = first + seq![options.delimiter];
            let tail = csv_line(fields.skip(1), options);
            assert((head + tail)[k] == head[k]);
        }
    }
    assert(line[at] == first[0]);
    assert(line.subrange(at + 1, at + 1 + inner.len()) =~= first.subrange(1, 1 + inner.len() as int));
    assert(first.subrange(1, 1 + inner.len() as int) =~= inner);
    assert(line[at + 1 + inner.len()] == rest[1 + inner.len() as int]);
    assert(rest[1 + inner.len() as int] == first[1 + inner.len() as int]);
    if fields.len() > 1 {
        assert(line[at + 2 + inner.len()] == rest[2 + inner.len() as int]);
        assert(rest[2 + inner.len() as int] == options.delimiter);
    } else {
        assert(rest.len() == first.len());
    }
    lemma_quoted_field(line, options, at + 1, fields[0], seq![]);
    assert(Seq::<char>::empty() + fields[0] =~= fields[0]);
    let behind = at + 2 + inner.len();
    assert(csv_fields(line, options, at, false, seq![]) == csv_fields(
        line,
        options,
        behind,
        false,
        fields[0],
    ));
    if fields.len() == 1 {
        assert(behind == line.len());
        assert(fields =~= seq![fields[0]]);
    } else {
        assert(line.subrange(behind + 1, line.len() as int) =~= rest.skip(
            first.len() as int + 1,
        ));
        assert(rest.skip(first.len() as int + 1) =~= csv_line(fields.skip(1), options));
        lemma_line_of_fields(line, fields.skip(1), options, behind + 1);
        assert(seq![fields[0]] + fields.skip(1) =~= fields);
    }
}

/// The fields of a line.
pub open spec fn line_fields(text: Seq<char>, options: OptionsModel) -> Result<
    Seq<Seq<char>>,
    Report,
> {
    match options.format {
        CopyInFormat::Text => Ok(split(text, options.delimiter)),
        CopyInFormat::Csv => csv_fields(text, options, 0, false, seq![]),
    }
}

/// The fields of a line.
pub fn split_copy_fields(text: &str, options: &CopyInOptions) -> (result: Result<
    Vec<String>,
    UserError,
>)
    ensures
        seen_all(result) == line_fields(text@, options@),
{
    match options.format {
        CopyInFormat::Text => {
            let fields = split_text(text, options.delimiter);
            assert(views(fields@) =~= texts(fields@));
            Ok(fields)
        },
        CopyInFormat::Csv => split_csv_copy_fields(text, options),
    }
}

/// The place of the first end of a line.
pub open spec fn newline_at(bytes: Seq<u8>) -> Option<int>
    decreases bytes.len(),
{
    if bytes.len() == 0 {
        None
    } else if bytes[0] == 10 {
        Some(0)
    } else {
        match newline_at(bytes.skip(1)) {
            Some(n) => Some(n + 1),
            None => None,
        }
    }
}

/// The lines that have come to their end, without it.
pub open spec fn complete_lines(bytes: Seq<u8>) -> Seq<Seq<u8>>
    decreases bytes.len(),
{
    match newline_at(bytes) {
        None => seq![],
        Some(n) => if 0 <= n < bytes.len() {
            seq![bytes.take(n)] + complete_lines(bytes.skip(n + 1))
        } else {
            seq![]
        },
    }
}

/// What comes behind the last line that has come to its end.
pub open spec fn unfinished(bytes: Seq<u8>) -> Seq<u8>
    decreases bytes.len(),
{
    match newline_at(bytes) {
        None => bytes,
        Some(n) => if 0 <= n < bytes.len() {
            unfinished(bytes.skip(n + 1))
        } else {
            bytes
        },
    }
}

/// The lines of some data: those that have come to their end, and at the end of all data also
/// the last one.
pub open spec fn data_lines(bytes: Seq<u8>, is_end: bool) -> Seq<Seq<u8>> {
    if is_end && unfinished(bytes).len() > 0 {
        complete_lines(bytes).push(unfinished(bytes))
    } else {
        complete_lines(bytes)
    }
}

proof fn lemma_newline_inside(bytes: Seq<u8>)
    ensures
        match newline_at(bytes) {
            Some(n) => 0 <= n < bytes.len() && bytes[n] == 10 && (forall|k: int|
                0 <= k < n ==> bytes[k] != 10),
            None => forall|k: int| 0 <= k < bytes.len() ==> bytes[k] != 10,
        },
    decreases bytes.len(),
{
    if bytes.len() > 0 && bytes[0] != 10 {
        lemma_newline_inside(bytes.skip(1));
        match newline_at(bytes.skip(1)) {
            Some(n) => {
                assert(bytes[n + 1] == bytes.skip(1)[n]);
                assert forall|k: int| 0 <= k < n + 1 implies bytes[k] != 10 by {
                    if k > 0 {
                        assert(bytes[k] == bytes.skip(1)[k - 1]);
                    }
                }
            },
            None => {
                assert forall|k: int| 0 <= k < bytes.len() implies bytes[k] != 10 by {
                    if k > 0 {
                        assert(bytes[k] == bytes.skip(1)[k - 1]);
                    }
                }
            },
        }
    }
}

/// The first end of a line is where it is known to be.
proof fn lemma_newline_at(bytes: Seq<u8>, n: int)
    requires
        0 <= n < bytes.len(),
        bytes[n] == 10,
        forall|k: int| 0 <= k < n ==> bytes[k] != 10,
    ensures
        newline_at(bytes) == Some(n),
{
    lemma_newline_inside(bytes);
    match newline_at(bytes) {
        Some(m) => {
            if m < n {
                assert(bytes[m] != 10);
            } else if n < m {
                assert(bytes[n] != 10);
            }
        },
        None => {},
    }
}

/// Lines with their ends between them.
pub open spec fn lines_text(lines: Seq<Seq<u8>>) -> Seq<u8>
    decreases lines.len(),
{
    if lines.len() == 0 {
        seq![]
    } else {
        lines[0] + seq![10u8] + lines_text(lines.skip(1))
    }
}

/// No byte is lost: the lines with their ends, and then the unfinished one, are the data.
pub proof fn law_lines_are_the_data(bytes: Seq<u8>)
    ensures
        lines_text(complete_lines(bytes)) + unfinished(bytes) == bytes,
        !unfinished(bytes).contains(10u8),
    decreases bytes.len(),
{
    lemma_newline_inside(bytes);
    match newline_at(bytes) {
        None => {
            assert(lines_text(complete_lines(bytes)) + unfinished(bytes) =~= bytes);
        },
        Some(n) => {
            let rest = bytes.skip(n + 1);
            law_lines_are_the_data(rest);
            let lines = complete_lines(bytes);
            assert(lines.skip(1) =~= complete_lines(rest));
            assert(lines[0] == bytes.take(n));
            assert(lines_text(lines) == bytes.take(n) + seq![10u8] + lines_text(
                complete_lines(rest),
            ));
            assert(lines_text(lines) + unfinished(bytes) =~= bytes.take(n) + seq![10u8] + (
            lines_text(complete_lines(rest)) + unfinished(rest)));
            assert(bytes.take(n) + seq![10u8] + rest =~= bytes);
        },
    }
}

/// It does not matter in which pieces the data come: the lines of a first piece, and then those
/// of what it left with the next, are the lines of both together.
pub proof fn law_pieces_do_not_matter(first: Seq<u8>, second: Seq<u8>)
    ensures
        complete_lines(first + second) == complete_lines(first) + complete_lines(
            unfinished(first) + second,
        ),
        unfinished(first + second) == unfinished(unfinished(first) + second),
    decreases first.len(),
{
    lemma_newline_inside(first);
    let both = first + second;
    match newline_at(first) {
        None => {
            assert(complete_lines(first) + complete_lines(both) =~= complete_lines(both));
        },
        Some(n) => {
            assert(both[n] == first[n]);
            assert forall|k: int| 0 <= k < n implies both[k] != 10 by {
                assert(both[k] == first[k]);
            }
            lemma_newline_at(both, n);
            let rest = first.skip(n + 1);
            law_pieces_do_not_matter(rest, second);
            assert(both.skip(n + 1) =~= rest + second);
            assert(both.take(n) =~= first.take(n));
            assert(complete_lines(both) =~= complete_lines(first) + complete_lines(
                unfinished(first) + second,
            ));
        },
    }
}

/// The bytes of lines.
pub open spec fn line_seqs(lines: Seq<Vec<u8>>) -> Seq<Seq<u8>> {
    lines.map_values(|line: Vec<u8>| line@)
}

fn copy_bytes(bytes: &Vec<u8>, from: usize, to: usize) -> (piece: Vec<u8>)
    requires
        from <= to <= bytes@.len(),
    ensures
        piece@ == bytes@.subrange(from as int, to as int),
{
    let mut piece: Vec<u8> = Vec::new();
    let mut i: usize = from;
    while i < to
        invariant
            from <= i <= to <= bytes@.len(),
            piece@ == bytes@.subrange(from as int, i as int),
        decreases to - i,
    {
        piece.push(bytes[i]);
        assert(bytes@.subrange(from as int, i + 1) =~= bytes@.subrange(from as int, i as int).push(
            bytes@[i as int],
        ));
        i += 1;
    }
    piece
}

/// The lines of data that have come, with what comes behind the last end of a line.
fn lines_and_rest(buffer: &Vec<u8>) -> (found: (Vec<Vec<u8>>, Vec<u8>))
    ensures
        line_seqs(found.0@) == complete_lines(buffer@),
        found.1@ == unfinished(buffer@),
{
    let ghost all = buffer@;
    let mut lines: Vec<Vec<u8>> = Vec::new();
    let mut start: usize = 0;
    let mut end: usize = 0;
    assert(all.subrange(0, all.len() as int) =~= all);
    assert(line_seqs(lines@) + complete_lines(all) =~= complete_lines(all));
    while end < buffer.len()
        invariant
            start <= end <= buffer@.len(),
            buffer@ == all,
            forall|k: int| start <= k < end ==> all[k] != 10,
            complete_lines(all) == line_seqs(lines@) + complete_lines(
                all.subrange(start as int, all.len() as int),
            ),
            unfinished(all) == unfinished(all.subrange(start as int, all.len() as int)),
        decreases buffer@.len() - end,
    {
        if buffer[end] == 10 {
            let ghost rest = all.subrange(start as int, all.len() as int);
            proof {
                assert(rest[end - start] == all[end as int]);
                assert forall|k: int| 0 <= k < end - start implies rest[k] != 10 by {
                    assert(rest[k] == all[start + k]);
                }
                lemma_newline_at(rest, end - start);
                assert(rest.take(end - start) =~= all.subrange(start as int, end as int));
                assert(rest.skip(end - start + 1) =~= all.subrange(end + 1, all.len() as int));
            }
            let line = copy_bytes(buffer, start, end);
            let ghost before = line_seqs(lines@);
            let ghost added = line@;
            lines.push(line);
            assert(line_seqs(lines@) =~= before.push(added));
            assert(before + (seq![added] + complete_lines(
                all.subrange(end + 1, all.len() as int),
            )) =~= before.push(added) + complete_lines(all.subrange(end + 1, all.len() as int)));
            start = end + 1;
        }
        end += 1;
    }
    let ghost rest = all.subrange(start as int, all.len() as int);
    proof {
        lemma_newline_inside(rest);
        if newline_at(rest) is Some {
            let n = newline_at(rest)->0;
            assert(rest[n] == all[start + n]);
        }
        assert(complete_lines(rest) =~= Seq::<Seq<u8>>::empty());
        assert(line_seqs(lines@) + complete_lines(rest) =~= line_seqs(lines@));
    }
    let left = copy_bytes(buffer, start, buffer.len());
    (lines, left)
}

/// The lines of data that have come; at the end of all data also the last one.
pub fn buffered_lines(buffer: &Vec<u8>, is_end: bool) -> (lines: Vec<Vec<u8>>)
    ensures
        line_seqs(lines@) == data_lines(buffer@, is_end),
{
    let (mut lines, left) = lines_and_rest(buffer);
    if is_end && left.len() > 0 {
        let ghost before = line_seqs(lines@);
        let ghost added = left@;
        lines.push(left);
        assert(line_seqs(lines@) =~= before.push(added));
    }
    lines
}

/// Forgets the lines of data that have come; at the end of all data also the last one.
pub fn drop_buffered_lines(buffer: &mut Vec<u8>, is_end: bool)
    ensures
        final(buffer)@ == (if is_end {
            seq![]
        } else {
            unfinished(old(buffer)@)
        }),
{
    if is_end {
        buffer.clear();
        assert(buffer@ =~= Seq::<u8>::empty());
    } else {
        let (_, left) = lines_and_rest(buffer);
        *buffer = left;
    }
}

} // verus!
