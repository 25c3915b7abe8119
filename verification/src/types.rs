//! The palette's data model: candidate items, match results, configuration,
//! and the matcher contract.

use vstd::prelude::*;

use crate::ranges::{pairs_view, ranges_wf};

verus! {

/// Mathematical value of a [`CommandPaletteItem`].
pub struct ItemView {
    pub id: Seq<char>,
    pub title: Seq<char>,
    pub subtitle: Option<Seq<char>>,
    pub category: Seq<char>,
    pub keywords: Seq<Seq<char>>,
    pub shortcut: Option<Seq<char>>,
    pub icon: Option<Seq<char>>,
    pub disabled: bool,
}

/// An entry the user can search for and confirm.
///
/// `id` is the stable identity used for de-duplication and merging; the
/// title, subtitle, keywords and category are what the matcher scores, while
/// the shortcut and icon are display-only.  A disabled item is still listed
/// but can never be confirmed.  An opaque caller payload is not carried here:
/// the core never reads one, so callers keep payloads on their side of the
/// boundary, keyed by `id` (the `Selected` event hands the id back).
pub struct CommandPaletteItem {
    /// Unique identifier for the item.
    pub id: String,
    /// The main title of the item.
    pub title: String,
    /// Optional subtitle/description.
    pub subtitle: Option<String>,
    /// Category for grouping/display.
    pub category: String,
    /// Additional keywords for matching.
    pub keywords: Vec<String>,
    /// Optional keyboard shortcut to display.
    pub shortcut: Option<String>,
    /// Optional icon name to display.
    pub icon: Option<String>,
    /// Whether the item is disabled.
    pub disabled: bool,
}

impl View for CommandPaletteItem {
    type V = ItemView;

    open spec fn view(&self) -> ItemView {
        ItemView {
            id: self.id@,
            title: self.title@,
            subtitle: self.subtitle.deep_view(),
            category: self.category@,
            keywords: self.keywords.deep_view(),
            shortcut: self.shortcut.deep_view(),
            icon: self.icon.deep_view(),
            disabled: self.disabled,
        }
    }
}

impl CommandPaletteItem {
    /// Creates an item with the required fields; everything else is empty.
    pub fn new(id: &str, title: &str) -> (r: Self)
        ensures
            r@ == (ItemView {
                id: id@,
                title: title@,
                subtitle: None,
                category: Seq::<char>::empty(),
                keywords: Seq::<Seq<char>>::empty(),
                shortcut: None,
                icon: None,
                disabled: false,
            }),
    {
        let r = CommandPaletteItem {
            id: id.to_owned(),
            title: title.to_owned(),
            subtitle: None,
            category: String::new(),
            keywords: Vec::new(),
            shortcut: None,
            icon: None,
            disabled: false,
        };
        proof {
            assert(r@.keywords =~= Seq::<Seq<char>>::empty());
        }
        r
    }

    /// Sets the subtitle.
    pub fn subtitle(self, subtitle: &str) -> (r: Self)
        ensures
            r@ == (ItemView { subtitle: Some(subtitle@), ..self@ }),
    {
        let mut this = self;
        this.subtitle = Some(subtitle.to_owned());
        this
    }

    /// Sets the category.
    pub fn category(self, category: &str) -> (r: Self)
        ensures
            r@ == (ItemView { category: category@, ..self@ }),
    {
        let mut this = self;
        this.category = category.to_owned();
        this
    }

    /// Sets the keyboard shortcut.
    pub fn shortcut(self, shortcut: &str) -> (r: Self)
        ensures
            r@ == (ItemView { shortcut: Some(shortcut@), ..self@ }),
    {
        let mut this = self;
        this.shortcut = Some(shortcut.to_owned());
        this
    }

    /// Sets the icon name.
    pub fn icon(self, icon: &str) -> (r: Self)
        ensures
            r@ == (ItemView { icon: Some(icon@), ..self@ }),
    {
        let mut this = self;
        this.icon = Some(icon.to_owned());
        this
    }

    /// Adds one keyword for matching.
    pub fn keyword(self, keyword: &str) -> (r: Self)
        ensures
            r@ == (ItemView { keywords: self@.keywords.push(keyword@), ..self@ }),
    {
        let mut this = self;
        this.keywords.push(keyword.to_owned());
        proof {
            assert(this@.keywords =~= self@.keywords.push(keyword@));
        }
        this
    }

    /// Adds several keywords for matching.
    pub fn keywords(self, keywords: Vec<String>) -> (r: Self)
        ensures
            r@ == (ItemView { keywords: self@.keywords + keywords.deep_view(), ..self@ }),
    {
        let mut this = self;
        let mut more = keywords;
        proof {
            assert(more.deep_view() =~= keywords.deep_view());
        }
        this.keywords.append(&mut more);
        proof {
            assert(this@.keywords =~= self@.keywords + keywords.deep_view());
        }
        this
    }

    /// Sets whether the item is disabled.
    pub fn disabled(self, disabled: bool) -> (r: Self)
        ensures
            r@ == (ItemView { disabled: disabled, ..self@ }),
    {
        let mut this = self;
        this.disabled = disabled;
        this
    }
}

impl Clone for CommandPaletteItem {
    fn clone(&self) -> (r: Self)
        ensures
            r@ == self@,
    {
        let r = CommandPaletteItem {
            id: self.id.clone(),
            title: self.title.clone(),
            subtitle: self.subtitle.clone(),
            category: self.category.clone(),
            keywords: self.keywords.clone(),
            shortcut: self.shortcut.clone(),
            icon: self.icon.clone(),
            disabled: self.disabled,
        };
        proof {
            assert(r.keywords.deep_view() =~= self.keywords.deep_view());
            assert(r.subtitle.deep_view() =~= self.subtitle.deep_view());
            assert(r.shortcut.deep_view() =~= self.shortcut.deep_view());
            assert(r.icon.deep_view() =~= self.icon.deep_view());
        }
        r
    }
}

/// Mathematical value of a [`CommandPaletteMatch`].
pub struct MatchView {
    pub score: int,
    pub title_ranges: Seq<(int, int)>,
    pub subtitle_ranges: Seq<(int, int)>,
}

/// Outcome of scoring one item against one query: the ranking score and the
/// byte ranges to highlight in the title and subtitle.
pub struct CommandPaletteMatch {
    /// The match score (higher is better).
    pub score: i64,
    /// Highlight ranges in the title (start byte, end byte).
    pub title_ranges: Vec<(usize, usize)>,
    /// Highlight ranges in the subtitle (start byte, end byte).
    pub subtitle_ranges: Vec<(usize, usize)>,
}

impl View for CommandPaletteMatch {
    type V = MatchView;

    open spec fn view(&self) -> MatchView {
        MatchView {
            score: self.score as int,
            title_ranges: pairs_view(self.title_ranges@),
            subtitle_ranges: pairs_view(self.subtitle_ranges@),
        }
    }
}

fn copy_pairs(v: &Vec<(usize, usize)>) -> (r: Vec<(usize, usize)>)
    ensures
        r@ == v@,
{
    let mut r: Vec<(usize, usize)> = Vec::new();
    let mut i: usize = 0;
    while i < v.len()
        invariant
            0 <= i <= v@.len(),
            r@ == v@.take(i as int),
        decreases v@.len() - i,
    {
        r.push(v[i]);
        proof {
            assert(r@ =~= v@.take(i + 1));
        }
        i = i + 1;
    }
    proof {
        assert(v@.take(v@.len() as int) =~= v@);
    }
    r
}

impl CommandPaletteMatch {
    /// A match with the given score and no highlights.
    pub fn new(score: i64) -> (r: Self)
        ensures
            r@.score == score as int,
            r@.title_ranges.len() == 0,
            r@.subtitle_ranges.len() == 0,
    {
        let r = CommandPaletteMatch { score, title_ranges: Vec::new(), subtitle_ranges: Vec::new() };
        proof {
            assert(r@.title_ranges =~= Seq::<(int, int)>::empty());
            assert(r@.subtitle_ranges =~= Seq::<(int, int)>::empty());
        }
        r
    }

    /// Replaces the title highlight ranges.
    pub fn with_title_ranges(self, ranges: Vec<(usize, usize)>) -> (r: Self)
        ensures
            r@ == (MatchView { title_ranges: pairs_view(ranges@), ..self@ }),
    {
        let mut this = self;
        this.title_ranges = ranges;
        this
    }

    /// Replaces the subtitle highlight ranges.
    pub fn with_subtitle_ranges(self, ranges: Vec<(usize, usize)>) -> (r: Self)
        ensures
            r@ == (MatchView { subtitle_ranges: pairs_view(ranges@), ..self@ }),
    {
        let mut this = self;
        this.subtitle_ranges = ranges;
        this
    }
}

impl Clone for CommandPaletteMatch {
    fn clone(&self) -> (r: Self)
        ensures
            r@ == self@,
    {
        CommandPaletteMatch {
            score: self.score,
            title_ranges: copy_pairs(&self.title_ranges),
            subtitle_ranges: copy_pairs(&self.subtitle_ranges),
        }
    }
}

/// Mathematical value of a [`MatchedItem`].
pub struct MatchedItemView {
    pub item: ItemView,
    pub match_info: MatchView,
}

/// An item paired with its match outcome for the current query.
pub struct MatchedItem {
    /// The matched item.
    pub item: CommandPaletteItem,
    /// Match information including score and highlight ranges.
    pub match_info: CommandPaletteMatch,
}

impl View for MatchedItem {
    type V = MatchedItemView;

    open spec fn view(&self) -> MatchedItemView {
        MatchedItemView { item: self.item@, match_info: self.match_info@ }
    }
}

impl MatchedItem {
    pub fn new(item: CommandPaletteItem, match_info: CommandPaletteMatch) -> (r: Self)
        ensures
            r@.item == item@,
            r@.match_info == match_info@,
    {
        MatchedItem { item, match_info }
    }
}

impl Clone for MatchedItem {
    fn clone(&self) -> (r: Self)
        ensures
            r@ == self@,
    {
        MatchedItem { item: self.item.clone(), match_info: self.match_info.clone() }
    }
}

/// Which fuzzy scoring back-end the palette uses.
///
/// Both back-ends share the same composition rule over title, subtitle,
/// keyword and category sub-scores; only the raw text scoring differs.  A
/// caller-supplied strategy is plugged in by implementing [`CommandMatcher`]
/// on a type of its own instead of using this enum.
#[derive(Clone, Copy, Debug, PartialEq, Eq, Structural)]
pub enum CommandMatcherKind {
    /// Scores with the nucleo matcher (the default).
    Nucleo,
    /// Scores with the skim (`fuzzy-matcher`) matcher.
    FuzzyMatcher,
}

impl Default for CommandMatcherKind {
    fn default() -> (r: Self)
        ensures
            r == CommandMatcherKind::Nucleo,
    {
        CommandMatcherKind::Nucleo
    }
}

/// The matcher contract.
///
/// `spec_match` is the strategy's mathematical value; `match_item` must
/// return exactly that.  Every strategy must accept the empty query with a
/// zero score and no highlights, and must only produce well-formed highlight
/// ranges for the texts it matched.
pub trait CommandMatcher: Sized {
    /// The value `match_item` returns, as a function of the query and item.
    spec fn spec_match(&self, query: Seq<char>, item: ItemView) -> Option<MatchView>;

    /// Matches one item against a query; `None` means the item is excluded.
    fn match_item(&self, query: &str, item: &CommandPaletteItem) -> (r: Option<
        CommandPaletteMatch,
    >)
        ensures
            (match r {
                Some(m) => self.spec_match(query@, item@) == Some(m@),
                None => self.spec_match(query@, item@) is None,
            }),
            query@.len() == 0 ==> (r matches Some(m) && m@.score == 0 && m@.title_ranges.len() == 0
                && m@.subtitle_ranges.len() == 0),
            (r matches Some(m) ==> ranges_wf(m@.title_ranges, item@.title)),
            (r matches Some(m) ==> (match item@.subtitle {
                Some(t) => ranges_wf(m@.subtitle_ranges, t),
                None => m@.subtitle_ranges.len() == 0,
            })),
    ;
}

/// Immutable configuration of one palette session.
///
/// A status-text callback for the footer is presentation state and lives with
/// the layer that renders the footer, not here.
pub struct CommandPaletteConfig {
    /// The keyboard shortcut that opens the palette, if any.
    pub shortcut: Option<String>,
    /// The fuzzy scoring back-end to use.
    pub matcher: CommandMatcherKind,
    /// Maximum number of results to display.
    pub max_results: usize,
    /// Placeholder text for the search input.
    pub placeholder: String,
    /// Width of the palette in pixels.
    pub width: u32,
    /// Maximum height of the palette in pixels.
    pub max_height: u32,
    /// Whether to show the footer with keyboard hints.
    pub show_footer: bool,
    /// Whether to show the category inline with each item.
    pub show_categories_inline: bool,
    /// Title of the commands section while a query is present.
    pub commands_section_title: Option<String>,
    /// Title of the asynchronous results section while a query is present.
    pub results_section_title: Option<String>,
}

impl Default for CommandPaletteConfig {
    /// The stock configuration.  The shortcut default is platform-neutral
    /// (`ctrl-p`); a caller on a platform with a command key substitutes its
    /// own binding, since this crate compiles one body for every target.
    fn default() -> (r: Self)
        ensures
            r.shortcut matches Some(s) && s@ == "ctrl-p"@,
            r.matcher == CommandMatcherKind::Nucleo,
            r.max_results == 50,
            r.placeholder@ == "Type a command..."@,
            r.width == 560,
            r.max_height == 400,
            r.show_footer,
            r.show_categories_inline,
            r.commands_section_title matches Some(s) && s@ == "Commands"@,
            r.results_section_title matches Some(s) && s@ == "Search Results"@,
    {
        CommandPaletteConfig {
            shortcut: Some("ctrl-p".to_owned()),
            matcher: CommandMatcherKind::Nucleo,
            max_results: 50,
            placeholder: "Type a command...".to_owned(),
            width: 560,
            max_height: 400,
            show_footer: true,
            show_categories_inline: true,
            commands_section_title: Some("Commands".to_owned()),
            results_section_title: Some("Search Results".to_owned()),
        }
    }
}

} // verus!
