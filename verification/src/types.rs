//! Book sources and the containers the preflight produces.
//!
//! JSON-valued fields of a book source (`exploreUrl`, `concurrentRate`,
//! `ruleReview`) are carried as their JSON text: the logic only asks whether
//! they are present.
use vstd::prelude::*;

verus! {

#[derive(Debug, Clone, Default)]
#[allow(non_snake_case)]
pub struct BookSource {
    pub bookSourceName: String,
    pub bookSourceUrl: String,
    pub bookSourceType: i64,
    pub bookSourceGroup: Option<String>,
    pub bookSourceComment: Option<String>,
    pub bookUrlPattern: Option<String>,
    pub customOrder: i64,
    pub enabled: bool,
    pub enabledCookieJar: bool,
    pub enabledExplore: bool,
    pub enabledReview: bool,
    /// JSON text of the explore entry, when present and not `null`.
    pub exploreUrl: Option<String>,
    pub header: Option<String>,
    pub loginUrl: Option<String>,
    pub loginUi: Option<String>,
    pub loginCheckJs: Option<String>,
    pub lastUpdateTime: i64,
    pub respondTime: i64,
    pub weight: i64,
    /// JSON text of the rate limit, when present and not `null`.
    pub concurrentRate: Option<String>,
    pub coverDecodeJs: Option<String>,
    pub exploreScreen: Option<String>,
    pub jsLib: Option<String>,
    pub variableComment: Option<String>,
    pub searchUrl: Option<String>,
    pub ruleSearch: Option<SearchRule>,
    pub ruleBookInfo: Option<BookInfoRule>,
    pub ruleContent: Option<ContentRule>,
    pub ruleToc: Option<TocRule>,
    pub ruleExplore: Option<ExploreRule>,
    /// JSON text of the review rule, when present and not `null`.
    pub ruleReview: Option<String>,
}

/// The value `enabled` takes when a source does not say.
pub fn default_true() -> (b: bool)
    ensures
        b,
{
    true
}

// ── Rule structs ──────────────────────────────────────────────

#[derive(Debug, Clone, Default)]
#[allow(non_snake_case)]
pub struct SearchRule {
    pub bookList: Option<String>,
    pub name: Option<String>,
    pub author: Option<String>,
    pub bookUrl: Option<String>,
    pub coverUrl: Option<String>,
    pub intro: Option<String>,
    pub kind: Option<String>,
    pub lastChapter: Option<String>,
    pub wordCount: Option<String>,
    pub checkKeyWord: Option<String>,
}

#[derive(Debug, Clone, Default)]
#[allow(non_snake_case)]
pub struct BookInfoRule {
    pub name: Option<String>,
    pub author: Option<String>,
    pub kind: Option<String>,
    pub wordCount: Option<String>,
    pub lastChapter: Option<String>,
    pub intro: Option<String>,
    pub coverUrl: Option<String>,
    pub tocUrl: Option<String>,
}

#[derive(Debug, Clone, Default)]
#[allow(non_snake_case)]
pub struct ContentRule {
    pub content: Option<String>,
}

#[derive(Debug, Clone, Default)]
#[allow(non_snake_case)]
pub struct TocRule {
    pub chapterList: Option<String>,
    pub chapterName: Option<String>,
    pub chapterUrl: Option<String>,
    pub isVip: Option<String>,
    pub updateTime: Option<String>,
}

#[derive(Debug, Clone, Default)]
#[allow(non_snake_case)]
pub struct ExploreRule {
    pub bookList: Option<String>,
    pub name: Option<String>,
    pub author: Option<String>,
    pub bookUrl: Option<String>,
    pub coverUrl: Option<String>,
    pub intro: Option<String>,
    pub kind: Option<String>,
    pub lastChapter: Option<String>,
}

// ── Skip/Reason enums ────────────────────────────────────────

#[derive(Debug, Clone, Copy, PartialEq, Eq, Structural)]
pub enum SkipReason {
    /// Non-text source (comic/audio/video) or disabled
    Excluded,
    /// bookSourceUrl is invalid and can't be auto-fixed
    BadUrl,
    /// No searchUrl and no exploreUrl
    NoCapability,
    /// Has searchUrl but missing ruleSearch
    NoSearchRule,
    /// Missing ruleContent (can search but can't read)
    NoContentRule,
    /// Requires login
    LoginRequired,
    /// JS source depends on Legado-specific APIs
    JsApi,
}

// ── Output containers ────────────────────────────────────────

#[derive(Debug)]
pub struct PreflightOutput {
    pub total_input: usize,
    pub excluded: usize,
    pub text_enabled: usize,
    pub eligible: Vec<BookSource>,
    pub skipped: Vec<(BookSource, SkipReason)>,
    pub explore_only: Vec<BookSource>,
    /// Breakdown of eligible sources by searchUrl type
    pub breakdown: PreflightBreakdown,
}

#[derive(Debug, Clone, Copy, PartialEq, Eq, Structural)]
pub struct PreflightBreakdown {
    pub template: usize,
    pub js_prefix: usize,
    pub js_block: usize,
    pub pure_url: usize,
    pub placeholder: usize,
}

} // verus!
