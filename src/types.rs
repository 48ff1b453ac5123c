use vstd::prelude::*;

verus! {

/// What a file imported into a project is.
#[derive(Clone, Copy, Debug, PartialEq, Eq)]
pub enum ProjectType {
    Video,
    Subtitle,
    Config,
}

/// Quality flags of a subtitle segment.
#[derive(Clone, Copy, Debug, PartialEq, Eq)]
pub struct SegmentFlags {
    pub overlap: bool,
    pub too_fast: bool,
    pub spelling_error: bool,
}

/// A term of a project's glossary and its required translation.
#[derive(Clone, Debug)]
pub struct GlossaryEntry {
    pub id: String,
    pub source: String,
    pub target: String,
    pub description: Option<String>,
    pub context: Option<String>,
}

/// The translation of one segment, by segment id.
#[derive(Clone, Debug)]
pub struct TranslationResult {
    pub id: u32,
    pub translated_text: String,
}

/// A project in the list of recently opened ones.
#[derive(Clone, Debug)]
pub struct RecentProject {
    pub path: String,
    pub name: String,
    pub last_opened: String,
}

} // verus!
