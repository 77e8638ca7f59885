//! How a value tree is laid out as text: the options, and the builder that
//! collects them.

use vstd::prelude::*;
use vstd::string::StringExecFns;

verus! {

/// The kind of container that an option applies to.
#[derive(Clone, Copy, Debug, PartialEq, Eq, Hash)]
pub enum FormatContext {
    List,
    Struct,
    Union,
    /// The three kinds at once. An option given for `All` is stored for each
    /// of them, and none is stored under `All` itself.
    All,
}

impl FormatContext {
    /// The name of the context; `All` is named by the three that it stands
    /// for.
    pub open spec fn text(self) -> Seq<char> {
        match self {
            FormatContext::List => "list"@,
            FormatContext::Struct => "struct"@,
            FormatContext::Union => "union"@,
            FormatContext::All => "list"@ + "struct"@ + "union"@,
        }
    }

    /// The name of the context.
    pub fn to_string(&self) -> (text: String)
        ensures
            text@ == self.text(),
    {
        match self {
            FormatContext::List => String::from_str("list"),
            FormatContext::Struct => String::from_str("struct"),
            FormatContext::Union => String::from_str("union"),
            FormatContext::All => {
                let mut text = String::from_str("list");
                text.append("struct");
                text.append("union");
                text
            },
        }
    }
}

/// The options of one kind of container.
#[derive(Clone, Copy, Debug, PartialEq, Eq)]
pub struct ContextOptions {
    /// A line break before the opening delimiter of a nested container.
    pub new_line_before: bool,
    /// A line break after the opening delimiter, after each comma and before
    /// the closing delimiter.
    pub new_line_after: bool,
    /// The length up to which the container is written on one line.
    pub inline: Option<usize>,
    /// Whether a comma follows the last element.
    pub trailing_comma: Option<bool>,
    /// Whether each line break is followed by indentation.
    pub indented: bool,
}

impl ContextOptions {
    /// No option at all.
    pub open spec fn none() -> ContextOptions {
        ContextOptions {
            new_line_before: false,
            new_line_after: false,
            inline: None,
            trailing_comma: None,
            indented: false,
        }
    }

    /// No option at all.
    pub fn plain() -> (options: ContextOptions)
        ensures
            options == ContextOptions::none(),
    {
        ContextOptions {
            new_line_before: false,
            new_line_after: false,
            inline: None,
            trailing_comma: None,
            indented: false,
        }
    }
}

/// Every option of a layout: those of each kind of container, and those
/// that hold everywhere.
#[derive(Clone, Copy, Debug, PartialEq, Eq)]
pub struct FormatOptions {
    pub list: ContextOptions,
    pub structure: ContextOptions,
    pub union: ContextOptions,
    /// A space after the colon between a key and its value.
    pub space_after_colon: bool,
    /// A space after a comma that no line break follows.
    pub space_after_comma: bool,
    /// Unions written as structs whose first key holds the tag.
    pub json_compatible_unions: bool,
}

impl FormatOptions {
    /// No option at all: the most compact layout.
    pub open spec fn none() -> FormatOptions {
        FormatOptions {
            list: ContextOptions::none(),
            structure: ContextOptions::none(),
            union: ContextOptions::none(),
            space_after_colon: false,
            space_after_comma: false,
            json_compatible_unions: false,
        }
    }

    /// The options stored for `context`; none is stored for `All`.
    pub open spec fn of(self, context: FormatContext) -> Option<ContextOptions> {
        match context {
            FormatContext::List => Some(self.list),
            FormatContext::Struct => Some(self.structure),
            FormatContext::Union => Some(self.union),
            FormatContext::All => None,
        }
    }

    /// These options with `change` applied to the options of `context`, or
    /// to those of each of the three kinds where `context` is `All`.
    pub open spec fn with_context(
        self,
        context: FormatContext,
        change: spec_fn(ContextOptions) -> ContextOptions,
    ) -> FormatOptions {
        match context {
            FormatContext::List => FormatOptions { list: change(self.list), ..self },
            FormatContext::Struct => FormatOptions { structure: change(self.structure), ..self },
            FormatContext::Union => FormatOptions { union: change(self.union), ..self },
            FormatContext::All => FormatOptions {
                list: change(self.list),
                structure: change(self.structure),
                union: change(self.union),
                ..self
            },
        }
    }

    /// These options with a line break before the containers of `context`.
    pub open spec fn with_new_line_before(self, context: FormatContext) -> FormatOptions {
        self.with_context(
            context,
            |o: ContextOptions| ContextOptions { new_line_before: true, ..o },
        )
    }

    /// These options with line breaks inside the containers of `context`.
    pub open spec fn with_new_line_after(self, context: FormatContext) -> FormatOptions {
        self.with_context(context, |o: ContextOptions| ContextOptions { new_line_after: true, ..o })
    }

    /// These options with the containers of `context` on one line up to
    /// `max_size` characters.
    pub open spec fn with_inline(self, context: FormatContext, max_size: usize) -> FormatOptions {
        self.with_context(
            context,
            |o: ContextOptions| ContextOptions { inline: Some(max_size), ..o },
        )
    }

    /// These options with the trailing comma of `context` switched on or
    /// off.
    pub open spec fn with_trailing_comma(
        self,
        context: FormatContext,
        trailing_comma: bool,
    ) -> FormatOptions {
        self.with_context(
            context,
            |o: ContextOptions| ContextOptions { trailing_comma: Some(trailing_comma), ..o },
        )
    }

    /// These options with indentation in the containers of `context`.
    pub open spec fn with_indented(self, context: FormatContext) -> FormatOptions {
        self.with_context(context, |o: ContextOptions| ContextOptions { indented: true, ..o })
    }

    /// The preset for reading by people: line breaks inside every container,
    /// a space after colons and commas, lists of up to 30 characters on one
    /// line, no trailing comma.
    pub open spec fn sensible_default() -> FormatOptions {
        FormatOptions::none().with_new_line_after(FormatContext::All).with_space_after_colon()
            .with_space_after_comma().with_inline(FormatContext::List, 30).with_trailing_comma(
            FormatContext::All,
            false,
        )
    }

    /// The preset that other JSON tools can read: the sensible default with
    /// a line break before every nested container, and unions written as
    /// structs.
    pub open spec fn json_like() -> FormatOptions {
        FormatOptions::none().with_new_line_before(FormatContext::All).with_new_line_after(
            FormatContext::All,
        ).with_space_after_colon().with_space_after_comma().with_inline(
            FormatContext::List,
            30,
        ).with_trailing_comma(FormatContext::All, false).with_json_compatible_unions()
    }

    /// These options with a space after colons.
    pub open spec fn with_space_after_colon(self) -> FormatOptions {
        FormatOptions { space_after_colon: true, ..self }
    }

    /// These options with a space after commas.
    pub open spec fn with_space_after_comma(self) -> FormatOptions {
        FormatOptions { space_after_comma: true, ..self }
    }

    /// These options with unions written as structs.
    pub open spec fn with_json_compatible_unions(self) -> FormatOptions {
        FormatOptions { json_compatible_unions: true, ..self }
    }
}

/// Of two lengths given for one context the second counts, as if the first
/// had never been given.
pub proof fn lemma_last_inline_counts(
    options: FormatOptions,
    context: FormatContext,
    first: usize,
    second: usize,
)
    ensures
        options.with_inline(context, first).with_inline(context, second) == options.with_inline(
            context,
            second,
        ),
{
}

/// Of two answers on the trailing comma of one context the second counts.
pub proof fn lemma_last_trailing_comma_counts(
    options: FormatOptions,
    context: FormatContext,
    first: bool,
    second: bool,
)
    ensures
        options.with_trailing_comma(context, first).with_trailing_comma(context, second)
            == options.with_trailing_comma(context, second),
{
}

/// An option that is switched on twice is switched on.
pub proof fn lemma_switch_on_once(options: FormatOptions, context: FormatContext)
    ensures
        options.with_new_line_before(context).with_new_line_before(context)
            == options.with_new_line_before(context),
        options.with_new_line_after(context).with_new_line_after(context)
            == options.with_new_line_after(context),
        options.with_indented(context).with_indented(context) == options.with_indented(context),
        options.with_space_after_colon().with_space_after_colon()
            == options.with_space_after_colon(),
        options.with_space_after_comma().with_space_after_comma()
            == options.with_space_after_comma(),
        options.with_json_compatible_unions().with_json_compatible_unions()
            == options.with_json_compatible_unions(),
{
}

/// An option given for `All` is given for each of the three kinds of
/// container.
pub proof fn lemma_all_is_each(options: FormatOptions, max_size: usize, trailing_comma: bool)
    ensures
        options.with_new_line_before(FormatContext::All) == options.with_new_line_before(
            FormatContext::List,
        ).with_new_line_before(FormatContext::Struct).with_new_line_before(FormatContext::Union),
        options.with_new_line_after(FormatContext::All) == options.with_new_line_after(
            FormatContext::List,
        ).with_new_line_after(FormatContext::Struct).with_new_line_after(FormatContext::Union),
        options.with_inline(FormatContext::All, max_size) == options.with_inline(
            FormatContext::List,
            max_size,
        ).with_inline(FormatContext::Struct, max_size).with_inline(FormatContext::Union, max_size),
        options.with_trailing_comma(FormatContext::All, trailing_comma)
            == options.with_trailing_comma(FormatContext::List, trailing_comma).with_trailing_comma(
            FormatContext::Struct,
            trailing_comma,
        ).with_trailing_comma(FormatContext::Union, trailing_comma),
        options.with_indented(FormatContext::All) == options.with_indented(
            FormatContext::List,
        ).with_indented(FormatContext::Struct).with_indented(FormatContext::Union),
{
}

/// A layout, fixed once it is built.
#[derive(Clone, Copy, Debug)]
pub struct Formatter {
    options: FormatOptions,
}

impl View for Formatter {
    type V = FormatOptions;

    closed spec fn view(&self) -> FormatOptions {
        self.options
    }
}

impl Formatter {
    /// The options of `context`, or nothing for `All`.
    fn options_of(&self, context: FormatContext) -> (options: Option<ContextOptions>)
        ensures
            options == self@.of(context),
    {
        match context {
            FormatContext::List => Some(self.options.list),
            FormatContext::Struct => Some(self.options.structure),
            FormatContext::Union => Some(self.options.union),
            FormatContext::All => None,
        }
    }

    /// Every option of the layout.
    pub fn options(&self) -> (options: FormatOptions)
        ensures
            options == self@,
    {
        self.options
    }

    /// Whether a line break stands before the containers of `context`.
    pub fn has_new_line_before(&self, context: FormatContext) -> (set: bool)
        ensures
            set == (self@.of(context) matches Some(o) && o.new_line_before),
    {
        match self.options_of(context) {
            Some(o) => o.new_line_before,
            None => false,
        }
    }

    /// Whether line breaks stand inside the containers of `context`.
    pub fn has_new_line_after(&self, context: FormatContext) -> (set: bool)
        ensures
            set == (self@.of(context) matches Some(o) && o.new_line_after),
    {
        match self.options_of(context) {
            Some(o) => o.new_line_after,
            None => false,
        }
    }

    /// Whether a space follows each colon.
    pub fn has_space_after_colon(&self) -> (set: bool)
        ensures
            set == self@.space_after_colon,
    {
        self.options.space_after_colon
    }

    /// Whether a space follows each comma.
    pub fn has_space_after_comma(&self) -> (set: bool)
        ensures
            set == self@.space_after_comma,
    {
        self.options.space_after_comma
    }

    /// The length up to which the containers of `context` are written on one
    /// line, if any.
    pub fn has_inline(&self, context: FormatContext) -> (max_size: Option<usize>)
        ensures
            max_size == (match self@.of(context) {
                Some(o) => o.inline,
                None => None,
            }),
    {
        match self.options_of(context) {
            Some(o) => o.inline,
            None => None,
        }
    }

    /// Whether unions are written as structs.
    pub fn has_json_compatible_unions(&self) -> (set: bool)
        ensures
            set == self@.json_compatible_unions,
    {
        self.options.json_compatible_unions
    }

    /// Whether a comma follows the last element of the containers of
    /// `context`, if that was said.
    pub fn has_trailing_comma(&self, context: FormatContext) -> (trailing_comma: Option<bool>)
        ensures
            trailing_comma == (match self@.of(context) {
                Some(o) => o.trailing_comma,
                None => None,
            }),
    {
        match self.options_of(context) {
            Some(o) => o.trailing_comma,
            None => None,
        }
    }

    /// Whether the containers of `context` are indented.
    pub fn has_indented(&self, context: FormatContext) -> (set: bool)
        ensures
            set == (self@.of(context) matches Some(o) && o.indented),
    {
        match self.options_of(context) {
            Some(o) => o.indented,
            None => false,
        }
    }
}

impl Default for Formatter {
    /// The layout without any option: the most compact one.
    fn default() -> (formatter: Self)
        ensures
            formatter@ == FormatOptions::none(),
    {
        Formatter {
            options: FormatOptions {
                list: ContextOptions::plain(),
                structure: ContextOptions::plain(),
                union: ContextOptions::plain(),
                space_after_colon: false,
                space_after_comma: false,
                json_compatible_unions: false,
            },
        }
    }
}

/// Collects the options of a layout. An option given twice for one context
/// counts as given last.
#[derive(Clone, Copy, Debug)]
pub struct FormatBuilder {
    options: FormatOptions,
}

impl View for FormatBuilder {
    type V = FormatOptions;

    closed spec fn view(&self) -> FormatOptions {
        self.options
    }
}

impl FormatBuilder {
    /// The options of the preset for reading by people.
    pub fn sensible_default() -> (builder: Self)
        ensures
            builder@ == FormatOptions::sensible_default(),
    {
        Self::new().new_line_after(FormatContext::All).space_after_colon().space_after_comma()
            .inline(FormatContext::List, 30).trailing_comma(FormatContext::All, false)
    }

    /// The options of the preset that other JSON tools can read.
    pub fn json_like() -> (builder: Self)
        ensures
            builder@ == FormatOptions::json_like(),
    {
        Self::new().new_line_before(FormatContext::All).new_line_after(FormatContext::All)
            .space_after_colon().space_after_comma().inline(FormatContext::List, 30)
            .trailing_comma(FormatContext::All, false).json_compatible_unions()
    }

    /// A builder without any option.
    pub fn new() -> (builder: Self)
        ensures
            builder@ == FormatOptions::none(),
    {
        FormatBuilder { options: Formatter::default().options() }
    }

    /// Asks for a line break before the containers of `context`.
    pub fn new_line_before(self, context: FormatContext) -> (builder: Self)
        ensures
            builder@ == self@.with_new_line_before(context),
    {
        let mut options = self.options;
        match context {
            FormatContext::List => {
                options.list.new_line_before = true;
            },
            FormatContext::Struct => {
                options.structure.new_line_before = true;
            },
            FormatContext::Union => {
                options.union.new_line_before = true;
            },
            FormatContext::All => {
                options.list.new_line_before = true;
                options.structure.new_line_before = true;
                options.union.new_line_before = true;
            },
        }
        FormatBuilder { options }
    }

    /// Asks for line breaks inside the containers of `context`.
    pub fn new_line_after(self, context: FormatContext) -> (builder: Self)
        ensures
            builder@ == self@.with_new_line_after(context),
    {
        let mut options = self.options;
        match context {
            FormatContext::List => {
                options.list.new_line_after = true;
            },
            FormatContext::Struct => {
                options.structure.new_line_after = true;
            },
            FormatContext::Union => {
                options.union.new_line_after = true;
            },
            FormatContext::All => {
                options.list.new_line_after = true;
                options.structure.new_line_after = true;
                options.union.new_line_after = true;
            },
        }
        FormatBuilder { options }
    }

    /// Asks for a space after each colon.
    pub fn space_after_colon(self) -> (builder: Self)
        ensures
            builder@ == self@.with_space_after_colon(),
    {
        let mut options = self.options;
        options.space_after_colon = true;
        FormatBuilder { options }
    }

    /// Asks for a space after each comma.
    pub fn space_after_comma(self) -> (builder: Self)
        ensures
            builder@ == self@.with_space_after_comma(),
    {
        let mut options = self.options;
        options.space_after_comma = true;
        FormatBuilder { options }
    }

    /// Asks for the containers of `context` on one line where that line is
    /// at most `max_size` characters long.
    pub fn inline(self, context: FormatContext, max_size: usize) -> (builder: Self)
        ensures
            builder@ == self@.with_inline(context, max_size),
    {
        let mut options = self.options;
        match context {
            FormatContext::List => {
                options.list.inline = Some(max_size);
            },
            FormatContext::Struct => {
                options.structure.inline = Some(max_size);
            },
            FormatContext::Union => {
                options.union.inline = Some(max_size);
            },
            FormatContext::All => {
                options.list.inline = Some(max_size);
                options.structure.inline = Some(max_size);
                options.union.inline = Some(max_size);
            },
        }
        FormatBuilder { options }
    }

    /// Asks for unions written as structs whose first key holds the tag.
    pub fn json_compatible_unions(self) -> (builder: Self)
        ensures
            builder@ == self@.with_json_compatible_unions(),
    {
        let mut options = self.options;
        options.json_compatible_unions = true;
        FormatBuilder { options }
    }

    /// Says whether a comma follows the last element of the containers of
    /// `context`.
    pub fn trailing_comma(self, context: FormatContext, trailing_comma: bool) -> (builder: Self)
        ensures
            builder@ == self@.with_trailing_comma(context, trailing_comma),
    {
        let mut options = self.options;
        match context {
            FormatContext::List => {
                options.list.trailing_comma = Some(trailing_comma);
            },
            FormatContext::Struct => {
                options.structure.trailing_comma = Some(trailing_comma);
            },
            FormatContext::Union => {
                options.union.trailing_comma = Some(trailing_comma);
            },
            FormatContext::All => {
                options.list.trailing_comma = Some(trailing_comma);
                options.structure.trailing_comma = Some(trailing_comma);
                options.union.trailing_comma = Some(trailing_comma);
            },
        }
        FormatBuilder { options }
    }

    /// Asks for indentation in the containers of `context`: four spaces for
    /// each container around a line.
    pub fn indented(self, context: FormatContext) -> (builder: Self)
        ensures
            builder@ == self@.with_indented(context),
    {
        let mut options = self.options;
        match context {
            FormatContext::List => {
                options.list.indented = true;
            },
            FormatContext::Struct => {
                options.structure.indented = true;
            },
            FormatContext::Union => {
                options.union.indented = true;
            },
            FormatContext::All => {
                options.list.indented = true;
                options.structure.indented = true;
                options.union.indented = true;
            },
        }
        FormatBuilder { options }
    }

    /// The layout with the options collected so far.
    pub fn build(self) -> (formatter: Formatter)
        ensures
            formatter@ == self@,
    {
        Formatter { options: self.options }
    }
}

impl Default for FormatBuilder {
    /// A builder without any option.
    fn default() -> (builder: Self)
        ensures
            builder@ == FormatOptions::none(),
    {
        FormatBuilder::new()
    }
}

} // verus!
