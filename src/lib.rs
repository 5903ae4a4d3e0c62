//! Event and tag grammar of a CommonMark-family markup parser, a block
//! scanner that produces an offset-annotated event stream, and a chunker that
//! splits a document into its top-level blocks.
use vstd::prelude::*;

pub mod chunk;
pub mod engine;
pub mod lines;
pub mod text;

verus! {

/// Codeblock kind.
#[derive(Clone, Debug, PartialEq)]
pub enum CodeBlockKind {
    Indented,
    /// The value is the info string of the fence: the language, possibly empty.
    Fenced(String),
}

impl CodeBlockKind {
    pub fn is_indented(&self) -> (r: bool)
        ensures
            r == (self is Indented),
    {
        matches!(*self, CodeBlockKind::Indented)
    }

    pub fn is_fenced(&self) -> (r: bool)
        ensures
            r == (self is Fenced),
    {
        matches!(*self, CodeBlockKind::Fenced(_))
    }

    /// Owned form of the value. Every payload here is already owned, so the
    /// value comes back as it was.
    pub fn into_static(self) -> (r: CodeBlockKind)
        ensures
            r == self,
    {
        match self {
            CodeBlockKind::Indented => CodeBlockKind::Indented,
            CodeBlockKind::Fenced(s) => CodeBlockKind::Fenced(s),
        }
    }
}

/// Kind of a GFM alert block quote.
#[derive(Clone, Copy, Debug, PartialEq, Eq, Structural, PartialOrd, Ord, Hash)]
pub enum BlockQuoteKind {
    Note,
    Tip,
    Important,
    Warning,
    Caution,
}

/// Kind of a container block.
#[derive(Clone, Copy, Debug, PartialEq, Eq, Structural, PartialOrd, Ord, Hash)]
pub enum ContainerKind {
    Default,
    Spoiler,
}

/// Delimiter style of a metadata block.
#[derive(Clone, Copy, Debug, PartialEq, Eq, Structural, PartialOrd, Ord, Hash)]
pub enum MetadataBlockKind {
    YamlStyle,
    PlusesStyle,
}

/// Opening of a structural construct, with the data needed to rebuild its head.
#[derive(Clone, Debug, PartialEq)]
pub enum Tag {
    Paragraph,
    Heading {
        level: HeadingLevel,
        id: Option<String>,
        classes: Vec<String>,
        attrs: Vec<(String, Option<String>)>,
    },
    BlockQuote(Option<BlockQuoteKind>),
    CodeBlock(CodeBlockKind),
    ContainerBlock(ContainerKind, String),
    HtmlBlock,
    /// A list; the number is the start of an ordered list.
    List(Option<u64>),
    Item,
    FootnoteDefinition(String),
    DefinitionList,
    DefinitionListTitle,
    DefinitionListDefinition,
    Table(Vec<Alignment>),
    TableHead,
    TableRow,
    TableCell,
    Emphasis,
    Strong,
    Strikethrough,
    Superscript,
    Subscript,
    Link { link_type: LinkType, dest_url: String, title: String, id: String },
    Image { link_type: LinkType, dest_url: String, title: String, id: String },
    MetadataBlock(MetadataBlockKind),
}

/// The closing marker that pairs with `t`: only the data that tells openers apart.
pub open spec fn end_of(t: Tag) -> TagEnd {
    match t {
        Tag::Paragraph => TagEnd::Paragraph,
        Tag::Heading { level, .. } => TagEnd::Heading(level),
        Tag::BlockQuote(kind) => TagEnd::BlockQuote(kind),
        Tag::CodeBlock(_) => TagEnd::CodeBlock,
        Tag::ContainerBlock(kind, _) => TagEnd::ContainerBlock(kind),
        Tag::HtmlBlock => TagEnd::HtmlBlock,
        Tag::List(number) => TagEnd::List(number is Some),
        Tag::Item => TagEnd::Item,
        Tag::FootnoteDefinition(_) => TagEnd::FootnoteDefinition,
        Tag::Table(_) => TagEnd::Table,
        Tag::TableHead => TagEnd::TableHead,
        Tag::TableRow => TagEnd::TableRow,
        Tag::TableCell => TagEnd::TableCell,
        Tag::Subscript => TagEnd::Subscript,
        Tag::Superscript => TagEnd::Superscript,
        Tag::Emphasis => TagEnd::Emphasis,
        Tag::Strong => TagEnd::Strong,
        Tag::Strikethrough => TagEnd::Strikethrough,
        Tag::Link { .. } => TagEnd::Link,
        Tag::Image { .. } => TagEnd::Image,
        Tag::MetadataBlock(kind) => TagEnd::MetadataBlock(kind),
        Tag::DefinitionList => TagEnd::DefinitionList,
        Tag::DefinitionListTitle => TagEnd::DefinitionListTitle,
        Tag::DefinitionListDefinition => TagEnd::DefinitionListDefinition,
    }
}

impl Tag {
    pub fn to_end(&self) -> (r: TagEnd)
        ensures
            r == end_of(*self),
    {
        match self {
            Tag::Paragraph => TagEnd::Paragraph,
            Tag::Heading { level, .. } => TagEnd::Heading(*level),
            Tag::BlockQuote(kind) => TagEnd::BlockQuote(*kind),
            Tag::CodeBlock(_) => TagEnd::CodeBlock,
            Tag::ContainerBlock(kind, _) => TagEnd::ContainerBlock(*kind),
            Tag::HtmlBlock => TagEnd::HtmlBlock,
            Tag::List(number) => TagEnd::List(number.is_some()),
            Tag::Item => TagEnd::Item,
            Tag::FootnoteDefinition(_) => TagEnd::FootnoteDefinition,
            Tag::Table(_) => TagEnd::Table,
            Tag::TableHead => TagEnd::TableHead,
            Tag::TableRow => TagEnd::TableRow,
            Tag::TableCell => TagEnd::TableCell,
            Tag::Subscript => TagEnd::Subscript,
            Tag::Superscript => TagEnd::Superscript,
            Tag::Emphasis => TagEnd::Emphasis,
            Tag::Strong => TagEnd::Strong,
            Tag::Strikethrough => TagEnd::Strikethrough,
            Tag::Link { .. } => TagEnd::Link,
            Tag::Image { .. } => TagEnd::Image,
            Tag::MetadataBlock(kind) => TagEnd::MetadataBlock(*kind),
            Tag::DefinitionList => TagEnd::DefinitionList,
            Tag::DefinitionListTitle => TagEnd::DefinitionListTitle,
            Tag::DefinitionListDefinition => TagEnd::DefinitionListDefinition,
        }
    }

    /// Owned form of the tag. Every payload here is already owned, so the
    /// tag comes back as it was.
    pub fn into_static(self) -> (r: Tag)
        ensures
            r == self,
    {
        match self {
            Tag::Paragraph => Tag::Paragraph,
            Tag::Heading { level, id, classes, attrs } => Tag::Heading { level, id, classes, attrs },
            Tag::BlockQuote(k) => Tag::BlockQuote(k),
            Tag::CodeBlock(kb) => Tag::CodeBlock(kb.into_static()),
            Tag::ContainerBlock(k, s) => Tag::ContainerBlock(k, s),
            Tag::HtmlBlock => Tag::HtmlBlock,
            Tag::List(v) => Tag::List(v),
            Tag::Item => Tag::Item,
            Tag::FootnoteDefinition(a) => Tag::FootnoteDefinition(a),
            Tag::Table(v) => Tag::Table(v),
            Tag::TableHead => Tag::TableHead,
            Tag::TableRow => Tag::TableRow,
            Tag::TableCell => Tag::TableCell,
            Tag::Emphasis => Tag::Emphasis,
            Tag::Strong => Tag::Strong,
            Tag::Strikethrough => Tag::Strikethrough,
            Tag::Superscript => Tag::Superscript,
            Tag::Subscript => Tag::Subscript,
            Tag::Link { link_type, dest_url, title, id } => Tag::Link { link_type, dest_url, title, id },
            Tag::Image { link_type, dest_url, title, id } => Tag::Image {
                link_type,
                dest_url,
                title,
                id,
            },
            Tag::MetadataBlock(v) => Tag::MetadataBlock(v),
            Tag::DefinitionList => Tag::DefinitionList,
            Tag::DefinitionListTitle => Tag::DefinitionListTitle,
            Tag::DefinitionListDefinition => Tag::DefinitionListDefinition,
        }
    }
}

/// Closing marker of a construct; it carries only what tells openers apart.
#[derive(Copy, Clone, Eq, PartialEq, Structural, Ord, PartialOrd, Hash, Debug)]
pub enum TagEnd {
    Paragraph,
    Heading(HeadingLevel),
    BlockQuote(Option<BlockQuoteKind>),
    CodeBlock,
    ContainerBlock(ContainerKind),
    HtmlBlock,
    /// `true` for an ordered list.
    List(bool),
    Item,
    FootnoteDefinition,
    DefinitionList,
    DefinitionListTitle,
    DefinitionListDefinition,
    Table,
    TableHead,
    TableRow,
    TableCell,
    Emphasis,
    Strong,
    Strikethrough,
    Superscript,
    Subscript,
    Link,
    Image,
    MetadataBlock(MetadataBlockKind),
}

impl From<Tag> for TagEnd {
    fn from(value: Tag) -> (r: TagEnd)
        ensures
            r == end_of(value),
    {
        value.to_end()
    }
}

impl vstd::std_specs::convert::FromSpecImpl<Tag> for TagEnd {
    open spec fn obeys_from_spec() -> bool {
        true
    }

    open spec fn from_spec(v: Tag) -> TagEnd {
        end_of(v)
    }
}

/// Heading level, from 1 to 6.
#[derive(Copy, Clone, Eq, PartialEq, Structural, Ord, PartialOrd, Hash, Debug)]
pub enum HeadingLevel {
    H1,
    H2,
    H3,
    H4,
    H5,
    H6,
}

/// The number of a heading level.
pub open spec fn level_number(l: HeadingLevel) -> int {
    match l {
        HeadingLevel::H1 => 1,
        HeadingLevel::H2 => 2,
        HeadingLevel::H3 => 3,
        HeadingLevel::H4 => 4,
        HeadingLevel::H5 => 5,
        HeadingLevel::H6 => 6,
    }
}

/// Returned when an integer out of 1..=6 is turned into a heading level.
#[derive(Copy, Clone, Eq, PartialEq, Structural, Ord, PartialOrd, Hash, Debug)]
pub struct InvalidHeadingLevel(pub usize);

impl HeadingLevel {
    /// The level whose number is `value`, or an error carrying `value`.
    pub fn from_number(value: usize) -> (r: Result<HeadingLevel, InvalidHeadingLevel>)
        ensures
            r == heading_from_number(value),
            1 <= value <= 6 <==> r is Ok,
            r matches Ok(l) ==> level_number(l) == value,
            r matches Err(e) ==> e.0 == value,
    {
        match value {
            1 => Ok(HeadingLevel::H1),
            2 => Ok(HeadingLevel::H2),
            3 => Ok(HeadingLevel::H3),
            4 => Ok(HeadingLevel::H4),
            5 => Ok(HeadingLevel::H5),
            6 => Ok(HeadingLevel::H6),
            _ => Err(InvalidHeadingLevel(value)),
        }
    }

    /// The HTML element name of the level: `h1` to `h6`.
    pub fn name(&self) -> (r: &'static str)
        ensures
            r@.len() == 2,
            r@[0] == 'h',
            r@[1] == (('0' as u32) + level_number(*self)) as char,
    {
        match self {
            HeadingLevel::H1 => {
                proof { reveal_strlit("h1"); }
                "h1"
            },
            HeadingLevel::H2 => {
                proof { reveal_strlit("h2"); }
                "h2"
            },
            HeadingLevel::H3 => {
                proof { reveal_strlit("h3"); }
                "h3"
            },
            HeadingLevel::H4 => {
                proof { reveal_strlit("h4"); }
                "h4"
            },
            HeadingLevel::H5 => {
                proof { reveal_strlit("h5"); }
                "h5"
            },
            HeadingLevel::H6 => {
                proof { reveal_strlit("h6"); }
                "h6"
            },
        }
    }
}

impl TryFrom<usize> for HeadingLevel {
    type Error = InvalidHeadingLevel;

    fn try_from(value: usize) -> (r: Result<HeadingLevel, InvalidHeadingLevel>)
        ensures
            1 <= value <= 6 <==> r is Ok,
            r matches Ok(l) ==> level_number(l) == value,
            r matches Err(e) ==> e.0 == value,
    {
        HeadingLevel::from_number(value)
    }
}

impl vstd::std_specs::convert::TryFromSpecImpl<usize> for HeadingLevel {
    open spec fn obeys_try_from_spec() -> bool {
        true
    }

    open spec fn try_from_spec(v: usize) -> Result<HeadingLevel, InvalidHeadingLevel> {
        heading_from_number(v)
    }
}

/// The heading level numbered `v`, or the error that carries `v`.
pub open spec fn heading_from_number(v: usize) -> Result<HeadingLevel, InvalidHeadingLevel> {
    if v == 1 {
        Ok(HeadingLevel::H1)
    } else if v == 2 {
        Ok(HeadingLevel::H2)
    } else if v == 3 {
        Ok(HeadingLevel::H3)
    } else if v == 4 {
        Ok(HeadingLevel::H4)
    } else if v == 5 {
        Ok(HeadingLevel::H5)
    } else if v == 6 {
        Ok(HeadingLevel::H6)
    } else {
        Err(InvalidHeadingLevel(v))
    }
}

/// How a link or image was written.
#[derive(Clone, Debug, PartialEq, Eq, Structural, Copy)]
pub enum LinkType {
    /// `[foo](bar)`
    Inline,
    /// `[foo][bar]`
    Reference,
    /// `[foo][bar]` where `bar` has no definition in the document
    ReferenceUnknown,
    /// `[foo][]`
    Collapsed,
    /// `[foo][]` where `foo` has no definition in the document
    CollapsedUnknown,
    /// `[foo]`
    Shortcut,
    /// `[foo]` where `foo` has no definition in the document
    ShortcutUnknown,
    /// `<http://example.com>`
    Autolink,
    /// `<foo@example.com>`
    Email,
    /// `[[foo]]` or `[[foo|bar]]`
    WikiLink { has_pothole: bool },
}

/// The reference kinds that can go unresolved.
pub open spec fn is_reference_kind(t: LinkType) -> bool {
    t is Reference || t is Collapsed || t is Shortcut
}

impl LinkType {
    /// The "unknown" counterpart of a reference kind.
    pub fn to_unknown(self) -> (r: LinkType)
        requires
            is_reference_kind(self),
        ensures
            self is Reference ==> r is ReferenceUnknown,
            self is Collapsed ==> r is CollapsedUnknown,
            self is Shortcut ==> r is ShortcutUnknown,
    {
        match self {
            LinkType::Reference => LinkType::ReferenceUnknown,
            LinkType::Collapsed => LinkType::CollapsedUnknown,
            _ => LinkType::ShortcutUnknown,
        }
    }
}

/// The unit of the event stream.
#[derive(Clone, Debug, PartialEq)]
pub enum Event {
    Start(Tag),
    End(TagEnd),
    Text(String),
    Code(String),
    InlineMath(String),
    DisplayMath(String),
    Html(String),
    InlineHtml(String),
    FootnoteReference(String),
    SoftBreak,
    HardBreak,
    Rule,
    TaskListMarker(bool),
}

impl Event {
    /// Owned form of the event. Every payload here is already owned, so the
    /// event comes back as it was.
    pub fn into_static(self) -> (r: Event)
        ensures
            r == self,
    {
        match self {
            Event::Start(t) => Event::Start(t.into_static()),
            Event::End(e) => Event::End(e),
            Event::Text(s) => Event::Text(s),
            Event::Code(s) => Event::Code(s),
            Event::InlineMath(s) => Event::InlineMath(s),
            Event::DisplayMath(s) => Event::DisplayMath(s),
            Event::Html(s) => Event::Html(s),
            Event::InlineHtml(s) => Event::InlineHtml(s),
            Event::FootnoteReference(s) => Event::FootnoteReference(s),
            Event::SoftBreak => Event::SoftBreak,
            Event::HardBreak => Event::HardBreak,
            Event::Rule => Event::Rule,
            Event::TaskListMarker(b) => Event::TaskListMarker(b),
        }
    }
}

/// Alignment of a table column.
#[derive(Copy, Clone, Debug, PartialEq, Eq, Structural)]
pub enum Alignment {
    /// No alignment given for the column.
    Unspecified,
    Left,
    Center,
    Right,
}

/// A set of extension flags.
#[derive(Debug, Clone, Copy, PartialEq, Eq, Structural, PartialOrd, Ord, Hash)]
pub struct Options {
    pub bits: u32,
}

pub const ENABLE_TABLES: u32 = 2;
pub const ENABLE_FOOTNOTES: u32 = 4;
pub const ENABLE_STRIKETHROUGH: u32 = 8;
pub const ENABLE_TASKLISTS: u32 = 16;
pub const ENABLE_SMART_PUNCTUATION: u32 = 32;
pub const ENABLE_HEADING_ATTRIBUTES: u32 = 64;
pub const ENABLE_YAML_STYLE_METADATA_BLOCKS: u32 = 128;
pub const ENABLE_PLUSES_DELIMITED_METADATA_BLOCKS: u32 = 256;
/// The old footnote syntax; it implies the footnote flag.
pub const ENABLE_OLD_FOOTNOTES: u32 = 516;
pub const ENABLE_MATH: u32 = 1024;
pub const ENABLE_GFM: u32 = 2048;
pub const ENABLE_DEFINITION_LIST: u32 = 4096;
pub const ENABLE_SUPERSCRIPT: u32 = 8192;
pub const ENABLE_SUBSCRIPT: u32 = 16384;
pub const ENABLE_WIKILINKS: u32 = 32768;
pub const ENABLE_CONTAINER_EXTENSIONS: u32 = 65536;
/// Every defined flag.
pub const ALL_FLAGS: u32 = 131070;

/// Whether every bit of `flag` is set in `bits`.
pub open spec fn has_flag(bits: u32, flag: u32) -> bool {
    bits & flag == flag
}

impl Options {
    /// No extension enabled.
    pub fn empty() -> (r: Options)
        ensures
            r.bits == 0,
    {
        Options { bits: 0 }
    }

    /// The flags of `bits` that are defined; the others are dropped.
    pub fn from_bits_truncate(bits: u32) -> (r: Options)
        ensures
            r.bits == bits & ALL_FLAGS,
    {
        Options { bits: bits & ALL_FLAGS }
    }

    /// Whether every flag of `flag` is enabled.
    pub fn contains(&self, flag: u32) -> (r: bool)
        ensures
            r == has_flag(self.bits, flag),
    {
        self.bits & flag == flag
    }

    /// Enables the flags of `flag`.
    pub fn insert(&mut self, flag: u32)
        ensures
            final(self).bits == old(self).bits | flag,
    {
        self.bits = self.bits | flag;
    }

    /// Footnotes in the GFM syntax: enabled, and not in the old syntax.
    pub fn has_gfm_footnotes(&self) -> (r: bool)
        ensures
            r == (has_flag(self.bits, ENABLE_FOOTNOTES) && !has_flag(self.bits, ENABLE_OLD_FOOTNOTES)),
    {
        self.contains(ENABLE_FOOTNOTES) && !self.contains(ENABLE_OLD_FOOTNOTES)
    }
}

} // verus!
