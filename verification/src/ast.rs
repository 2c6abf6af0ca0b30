//! The abstract syntax tree of an emark question document, and its
//! mathematical model: each AST type has a view made of `Seq`s and plain values.

use vstd::prelude::*;

use crate::category::{Module, SubCategory};
use crate::syntax::{metadata_key, metadata_key_index};

verus! {

/// A question document.
#[derive(Debug, Clone, PartialEq, Eq)]
pub struct Document {
    /// Document-level metadata; every field is `None` where the author wrote none.
    pub metadata: Metadata,
    /// Module sections, in document order.
    pub sections: Vec<Section>,
}

/// Document-level metadata.
#[derive(Debug, Clone, PartialEq, Eq)]
pub struct Metadata {
    /// Title.
    pub title: Option<String>,
    /// Exam name.
    pub exam: Option<String>,
    /// Year.
    pub year: Option<String>,
    /// Paper variant, such as 副省级, 地市级 or 行政执法.
    pub paper: Option<String>,
    /// Region, for provincial exams.
    pub region: Option<String>,
    /// Source.
    pub source: Option<String>,
    /// Reference duration, in minutes.
    pub duration: Option<String>,
    /// Total score.
    pub score: Option<String>,
}

/// A module section: one module declaration carrying its questions. One module
/// may occupy several sections.
#[derive(Debug, Clone, PartialEq, Eq)]
pub struct Section {
    /// The module the section declares.
    pub module: Module,
    /// The sub-category; `None` where the author declared none.
    pub sub_category: Option<SubCategory>,
    /// The questions of the section, in document order.
    pub questions: Vec<Question>,
}

/// A question: a stand-alone single-choice question, or a material question.
#[derive(Debug, Clone, PartialEq, Eq)]
pub enum Question {
    /// A stand-alone single-choice question.
    Single(SingleChoice),
    /// A shared material followed by its single-choice sub-questions.
    Material(MaterialQuestion),
}

/// A single-choice question.
#[derive(Debug, Clone, PartialEq, Eq)]
pub struct SingleChoice {
    /// Number in document order, from 1; assigned by the parser, never written.
    pub number: usize,
    /// The stem.
    pub stem: Content,
    /// The four options, for A, B, C and D in turn.
    pub options: [Content; 4],
    /// The correct answer.
    pub answer: Choice,
    /// The explanation; `None` where the author wrote none.
    pub explanation: Option<Content>,
}

/// A material question: shared material, then its sub-questions.
#[derive(Debug, Clone, PartialEq, Eq)]
pub struct MaterialQuestion {
    /// The shared material.
    pub material: Content,
    /// The sub-questions bound to the material, in document order.
    pub questions: Vec<SingleChoice>,
}

/// Rich content: paragraphs separated by blank lines.
#[derive(Debug, Clone, PartialEq, Eq)]
pub struct Content {
    /// The paragraphs, in order.
    pub paragraphs: Vec<Paragraph>,
}

/// A paragraph: inline nodes in order; line breaks inside the paragraph stay in
/// its text as `\n`.
#[derive(Debug, Clone, PartialEq, Eq)]
pub struct Paragraph(pub Vec<Inline>);

/// An inline node.
#[derive(Debug, Clone, PartialEq, Eq)]
pub enum Inline {
    /// Plain text.
    Text(String),
    /// An inline formula: its LaTeX source.
    Math(String),
    /// An image: the path the author wrote.
    Image(String),
    /// A fill-in blank.
    Blank,
}

/// The correct option of a single-choice question.
#[derive(Debug, Clone, Copy, PartialEq, Eq, Structural)]
pub enum Choice {
    A,
    B,
    C,
    D,
}

/// Model of an inline node.
pub enum InlineV {
    Text(Seq<char>),
    Math(Seq<char>),
    Image(Seq<char>),
    Blank,
}

/// Model of a single-choice question.
pub struct SingleV {
    pub number: nat,
    pub stem: Seq<Seq<InlineV>>,
    pub options: Seq<Seq<Seq<InlineV>>>,
    pub answer: Choice,
    pub explanation: Option<Seq<Seq<InlineV>>>,
}

/// Model of a question.
pub enum QuestionV {
    Single(SingleV),
    Material(Seq<Seq<InlineV>>, Seq<SingleV>),
}

/// Model of a section.
pub struct SectionV {
    pub module: Module,
    pub sub_category: Option<SubCategory>,
    pub questions: Seq<QuestionV>,
}

/// Model of a document: the metadata values in key order (see
/// `metadata_key_index`), then the sections.
pub struct DocumentV {
    pub metadata: Seq<Option<Seq<char>>>,
    pub sections: Seq<SectionV>,
}

/// The view of an optional string.
pub open spec fn opt_view(o: Option<String>) -> Option<Seq<char>> {
    match o {
        Some(s) => Some(s@),
        None => None,
    }
}

impl View for Inline {
    type V = InlineV;

    open spec fn view(&self) -> InlineV {
        match self {
            Inline::Text(s) => InlineV::Text(s@),
            Inline::Math(s) => InlineV::Math(s@),
            Inline::Image(s) => InlineV::Image(s@),
            Inline::Blank => InlineV::Blank,
        }
    }
}

impl View for Paragraph {
    type V = Seq<InlineV>;

    open spec fn view(&self) -> Seq<InlineV> {
        self.0@.map_values(|i: Inline| i@)
    }
}

impl View for Content {
    type V = Seq<Seq<InlineV>>;

    open spec fn view(&self) -> Seq<Seq<InlineV>> {
        self.paragraphs@.map_values(|p: Paragraph| p@)
    }
}

/// The view of optional content.
pub open spec fn opt_content_view(o: Option<Content>) -> Option<Seq<Seq<InlineV>>> {
    match o {
        Some(c) => Some(c@),
        None => None,
    }
}

impl View for SingleChoice {
    type V = SingleV;

    open spec fn view(&self) -> SingleV {
        SingleV {
            number: self.number as nat,
            stem: self.stem@,
            options: self.options@.map_values(|c: Content| c@),
            answer: self.answer,
            explanation: opt_content_view(self.explanation),
        }
    }
}

impl View for Question {
    type V = QuestionV;

    open spec fn view(&self) -> QuestionV {
        match self {
            Question::Single(q) => QuestionV::Single(q@),
            Question::Material(m) => QuestionV::Material(
                m.material@,
                m.questions@.map_values(|q: SingleChoice| q@),
            ),
        }
    }
}

impl View for Section {
    type V = SectionV;

    open spec fn view(&self) -> SectionV {
        SectionV {
            module: self.module,
            sub_category: self.sub_category,
            questions: self.questions@.map_values(|q: Question| q@),
        }
    }
}

impl View for Metadata {
    type V = Seq<Option<Seq<char>>>;

    open spec fn view(&self) -> Seq<Option<Seq<char>>> {
        seq![
            opt_view(self.title),
            opt_view(self.exam),
            opt_view(self.year),
            opt_view(self.paper),
            opt_view(self.region),
            opt_view(self.source),
            opt_view(self.duration),
            opt_view(self.score),
        ]
    }
}

impl View for Document {
    type V = DocumentV;

    open spec fn view(&self) -> DocumentV {
        DocumentV {
            metadata: self.metadata@,
            sections: self.sections@.map_values(|s: Section| s@),
        }
    }
}

/// The letter of a choice.
pub open spec fn choice_letter(c: Choice) -> char {
    match c {
        Choice::A => 'A',
        Choice::B => 'B',
        Choice::C => 'C',
        Choice::D => 'D',
    }
}

impl Choice {
    /// The letter of the choice.
    pub fn letter(self) -> (r: char)
        ensures
            r == choice_letter(self),
    {
        match self {
            Choice::A => 'A',
            Choice::B => 'B',
            Choice::C => 'C',
            Choice::D => 'D',
        }
    }
}

impl Metadata {
    /// Metadata with every field absent.
    pub fn new() -> (r: Metadata)
        ensures
            r@ == seq![None::<Seq<char>>, None, None, None, None, None, None, None],
    {
        Metadata {
            title: None,
            exam: None,
            year: None,
            paper: None,
            region: None,
            source: None,
            duration: None,
            score: None,
        }
    }
}

impl Metadata {
    /// Whether `keyword` names a metadata field: `title`, `exam`, `year`,
    /// `paper`, `region`, `source`, `duration` or `score`.
    pub fn is_key(keyword: &str) -> (r: bool)
        ensures
            r == (metadata_key_index(keyword@) is Some),
    {
        let k = crate::text::chars_of(keyword);
        metadata_key(&k).is_some()
    }

    /// Sets the field that `keyword` names to `value` and returns `true`;
    /// returns `false` and changes nothing when `keyword` names no field.
    /// Every other field keeps its value.
    pub fn set(&mut self, keyword: &str, value: String) -> (r: bool)
        ensures
            r == (metadata_key_index(keyword@) is Some),
            match metadata_key_index(keyword@) {
                Some(i) => final(self)@ == old(self)@.update(i as int, Some(value@)),
                None => final(self)@ == old(self)@,
            },
    {
        let k = crate::text::chars_of(keyword);
        match metadata_key(&k) {
            None => false,
            Some(i) => {
                crate::parser::metadata_set(self, i, value);
                true
            },
        }
    }
}

impl Default for Metadata {
    fn default() -> (r: Metadata)
        ensures
            r@ == seq![None::<Seq<char>>, None, None, None, None, None, None, None],
    {
        Metadata::new()
    }
}

/// A metadata key names its own field: the line `@<key> value` fills the
/// field called `<key>` (`@title` the title, …, `@duration` the duration,
/// `@score` the score) and leaves every other field as it was.
pub proof fn law_metadata_keys_name_their_fields(m: Metadata, v: String)
    ensures
        metadata_key_index("title"@) matches Some(i) && (Metadata { title: Some(v), ..m })@ == m@.update(
            i as int,
            Some(v@),
        ),
        metadata_key_index("exam"@) matches Some(i) && (Metadata { exam: Some(v), ..m })@ == m@.update(
            i as int,
            Some(v@),
        ),
        metadata_key_index("year"@) matches Some(i) && (Metadata { year: Some(v), ..m })@ == m@.update(
            i as int,
            Some(v@),
        ),
        metadata_key_index("paper"@) matches Some(i) && (Metadata { paper: Some(v), ..m })@ == m@.update(
            i as int,
            Some(v@),
        ),
        metadata_key_index("region"@) matches Some(i) && (Metadata { region: Some(v), ..m })@ == m@.update(
            i as int,
            Some(v@),
        ),
        metadata_key_index("source"@) matches Some(i) && (Metadata { source: Some(v), ..m })@ == m@.update(
            i as int,
            Some(v@),
        ),
        metadata_key_index("duration"@) matches Some(i) && (Metadata { duration: Some(v), ..m })@ == m@.update(
            i as int,
            Some(v@),
        ),
        metadata_key_index("score"@) matches Some(i) && (Metadata { score: Some(v), ..m })@ == m@.update(
            i as int,
            Some(v@),
        ),
{
    reveal_strlit("title");
    reveal_strlit("exam");
    reveal_strlit("year");
    reveal_strlit("paper");
    reveal_strlit("region");
    reveal_strlit("source");
    reveal_strlit("duration");
    reveal_strlit("score");
    assert(metadata_key_index("title"@) == Some(0nat));
    assert("exam"@.len() != "title"@.len());
    assert(metadata_key_index("exam"@) == Some(1nat));
    assert("year"@.len() != "title"@.len());
    assert("year"@[0] != "exam"@[0]);
    assert(metadata_key_index("year"@) == Some(2nat));
    assert("paper"@[0] != "title"@[0]);
    assert("paper"@.len() != "exam"@.len());
    assert("paper"@.len() != "year"@.len());
    assert(metadata_key_index("paper"@) == Some(3nat));
    assert("region"@.len() != "title"@.len());
    assert("region"@.len() != "exam"@.len());
    assert("region"@.len() != "year"@.len());
    assert("region"@.len() != "paper"@.len());
    assert(metadata_key_index("region"@) == Some(4nat));
    assert("source"@.len() != "title"@.len());
    assert("source"@.len() != "exam"@.len());
    assert("source"@.len() != "year"@.len());
    assert("source"@.len() != "paper"@.len());
    assert("source"@[0] != "region"@[0]);
    assert(metadata_key_index("source"@) == Some(5nat));
    assert("duration"@.len() != "title"@.len());
    assert("duration"@.len() != "exam"@.len());
    assert("duration"@.len() != "year"@.len());
    assert("duration"@.len() != "paper"@.len());
    assert("duration"@.len() != "region"@.len());
    assert("duration"@.len() != "source"@.len());
    assert(metadata_key_index("duration"@) == Some(6nat));
    assert("score"@[0] != "title"@[0]);
    assert("score"@.len() != "exam"@.len());
    assert("score"@.len() != "year"@.len());
    assert("score"@[0] != "paper"@[0]);
    assert("score"@.len() != "region"@.len());
    assert("score"@.len() != "source"@.len());
    assert("score"@.len() != "duration"@.len());
    assert(metadata_key_index("score"@) == Some(7nat));
    assert((Metadata { title: Some(v), ..m })@ =~= m@.update(0, Some(v@)));
    assert((Metadata { exam: Some(v), ..m })@ =~= m@.update(1, Some(v@)));
    assert((Metadata { year: Some(v), ..m })@ =~= m@.update(2, Some(v@)));
    assert((Metadata { paper: Some(v), ..m })@ =~= m@.update(3, Some(v@)));
    assert((Metadata { region: Some(v), ..m })@ =~= m@.update(4, Some(v@)));
    assert((Metadata { source: Some(v), ..m })@ =~= m@.update(5, Some(v@)));
    assert((Metadata { duration: Some(v), ..m })@ =~= m@.update(6, Some(v@)));
    assert((Metadata { score: Some(v), ..m })@ =~= m@.update(7, Some(v@)));
}

} // verus!
