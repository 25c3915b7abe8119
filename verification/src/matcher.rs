//! The fuzzy scoring back-ends and the shared composition rule.
//!
//! Raw text scoring is done by one of two outside fuzzy matchers; everything
//! around the calls is verified: the conversion of matched character indices
//! into byte highlight ranges, the field-weighting rule that combines title,
//! subtitle, keyword and category sub-scores, and the dispatch between the
//! back-ends.
//!
//! Queries longer than [`MAX_QUERY_CHARS`] and texts longer than
//! [`MAX_TEXT_CHARS`] are treated as non-matching instead of being handed to
//! the scorers, whose internal arithmetic is only sound below these bounds.

use vstd::prelude::*;

use crate::ranges::{highlight_ranges, highlight_ranges_spec, pairs_view, ranges_wf};
use crate::types::{
    CommandMatcher, CommandMatcherKind, CommandPaletteItem, CommandPaletteMatch, ItemView,
    MatchView,
};

verus! {

/// Queries longer than this never match.  nucleo accumulates each pattern
/// word's score in 16 bits, adding up to 26 points per matched character
/// (36 for the first), and caps needles at 2048 characters on its optimal
/// matching path for exactly this reason; its greedy and exact paths apply
/// no such cap, so a longer fully-matching word could overflow the score.
/// 2048-character words stay safely below the 16-bit limit.
pub const MAX_QUERY_CHARS: usize = 2048;

/// Texts longer than this never match.  The bound keeps the skim scorer's
/// 32-bit per-character score accumulation far from overflow and both
/// scorers' scratch allocations moderate; nucleo additionally refuses
/// haystacks of more than `u32::MAX` characters outright.
pub const MAX_TEXT_CHARS: usize = 0x0010_0000;

/// What nucleo's pattern matching returns for a query and a text: the score
/// and the matched character positions, or nothing when the text does not
/// match.  The positions may repeat and come in any order.
pub uninterp spec fn nucleo_match_of(query: Seq<char>, text: Seq<char>) -> Option<(u32, Seq<u32>)>;

/// What the skim matcher returns for a query and a text: the score and the
/// matched character positions, or nothing when the text does not match.
pub uninterp spec fn skim_match_of(query: Seq<char>, text: Seq<char>) -> Option<(i64, Seq<usize>)>;

/// Relies on nucleo's `Pattern::parse` (smart case, smart normalization) and
/// `Pattern::indices` with a default-configured `Matcher`: the score and the
/// matched character positions depend on the query and the text alone.
#[verifier::external_body]
fn nucleo_raw_match(query: &str, text: &str) -> (r: Option<(u32, Vec<u32>)>)
    requires
        query@.len() <= MAX_QUERY_CHARS as int,
        text@.len() <= MAX_TEXT_CHARS as int,
    ensures
        (match r {
            Some(p) => nucleo_match_of(query@, text@) == Some((p.0, p.1@)),
            None => nucleo_match_of(query@, text@) is None,
        }),
{
    let pattern = nucleo::pattern::Pattern::parse(
        query,
        nucleo::pattern::CaseMatching::Smart,
        nucleo::pattern::Normalization::Smart,
    );
    let chars: Vec<char> = text.chars().collect();
    let haystack = nucleo::Utf32Str::Unicode(&chars);
    let mut matcher = nucleo::Matcher::new(nucleo::Config::DEFAULT);
    let mut indices: Vec<u32> = Vec::new();
    let score = pattern.indices(haystack, &mut matcher, &mut indices)?;
    Some((score, indices))
}

/// Relies on fuzzy-matcher's `SkimMatcherV2::fuzzy_indices` with default
/// settings: the score and the matched character positions depend on the
/// query and the text alone.
#[verifier::external_body]
fn skim_raw_match(query: &str, text: &str) -> (r: Option<(i64, Vec<usize>)>)
    requires
        query@.len() <= MAX_QUERY_CHARS as int,
        text@.len() <= MAX_TEXT_CHARS as int,
    ensures
        (match r {
            Some(p) => skim_match_of(query@, text@) == Some((p.0, p.1@)),
            None => skim_match_of(query@, text@) is None,
        }),
{
    let matcher = fuzzy_matcher::skim::SkimMatcherV2::default();
    fuzzy_matcher::FuzzyMatcher::fuzzy_indices(&matcher, text, query)
}

/// Widening of nucleo's index list to the index type of the range pipeline.
pub open spec fn widen_indices(s: Seq<u32>) -> Seq<usize> {
    s.map_values(|x: u32| x as usize)
}

fn u32_indices_to_usize(v: &Vec<u32>) -> (r: Vec<usize>)
    ensures
        r@ == widen_indices(v@),
{
    let mut r: Vec<usize> = Vec::new();
    let mut i: usize = 0;
    while i < v.len()
        invariant
            0 <= i <= v@.len(),
            r@ == widen_indices(v@.take(i as int)),
        decreases v@.len() - i,
    {
        r.push(v[i] as usize);
        proof {
            assert(r@ =~= widen_indices(v@.take(i + 1)));
        }
        i = i + 1;
    }
    proof {
        assert(v@.take(v@.len() as int) =~= v@);
    }
    r
}

/// One back-end's result of matching `query` against `text`: the raw score
/// and the byte highlight ranges.  The empty query matches everything with
/// score zero; over-long queries or texts never match.
pub open spec fn spec_match_text(kind: CommandMatcherKind, query: Seq<char>, text: Seq<char>) -> Option<
    (int, Seq<(int, int)>),
> {
    if query.len() == 0 {
        Some((0, Seq::empty()))
    } else if query.len() > MAX_QUERY_CHARS as int || text.len() > MAX_TEXT_CHARS as int {
        None
    } else {
        match kind {
            CommandMatcherKind::Nucleo => match nucleo_match_of(query, text) {
                Some(p) => Some(
                    (p.0 as int, highlight_ranges_spec(text, widen_indices(p.1))),
                ),
                None => None,
            },
            CommandMatcherKind::FuzzyMatcher => match skim_match_of(query, text) {
                Some(p) => Some((p.0 as int, highlight_ranges_spec(text, p.1))),
                None => None,
            },
        }
    }
}

/// Matches `query` against one text with the chosen back-end and converts the
/// matched character positions into byte highlight ranges.
fn match_text(kind: CommandMatcherKind, query: &str, text: &str) -> (r: Option<
    (i64, Vec<(usize, usize)>),
>)
    ensures
        (match r {
            Some(p) => spec_match_text(kind, query@, text@) == Some((p.0 as int, pairs_view(p.1@))),
            None => spec_match_text(kind, query@, text@) is None,
        }),
        (r matches Some(p) ==> ranges_wf(pairs_view(p.1@), text@)),
{
    if query.is_empty() {
        let empty: Vec<(usize, usize)> = Vec::new();
        proof {
            assert(pairs_view(empty@) =~= Seq::<(int, int)>::empty());
        }
        return Some((0, empty));
    }
    let qn = query.unicode_len();
    let tn = text.unicode_len();
    if qn > MAX_QUERY_CHARS || tn > MAX_TEXT_CHARS {
        return None;
    }
    match kind {
        CommandMatcherKind::Nucleo => {
            match nucleo_raw_match(query, text) {
                Some((score, idx)) => {
                    let wide = u32_indices_to_usize(&idx);
                    let ranges = highlight_ranges(text, &wide);
                    Some((score as i64, ranges))
                },
                None => None,
            }
        },
        CommandMatcherKind::FuzzyMatcher => {
            match skim_raw_match(query, text) {
                Some((score, idx)) => {
                    let ranges = highlight_ranges(text, &idx);
                    Some((score, ranges))
                },
                None => None,
            }
        },
    }
}

/// Signed division by ten that truncates toward zero, as the score
/// composition uses it for the category bonus.
pub open spec fn div10_trunc(x: int) -> int {
    if x >= 0 {
        x / 10
    } else {
        -((-x) / 10)
    }
}

fn div10_i64(x: i64) -> (r: i128)
    ensures
        r as int == div10_trunc(x as int),
{
    let m: i128 = x as i128;
    if m >= 0 {
        ((m as u128) / 10) as i128
    } else {
        -((((-m) as u128) / 10) as i128)
    }
}

/// Clamping of a mathematical score into the signed 64-bit range.
pub open spec fn clamp_i64(x: int) -> int {
    if x < i64::MIN as int {
        i64::MIN as int
    } else if x > i64::MAX as int {
        i64::MAX as int
    } else {
        x
    }
}

fn clamp_to_i64(x: i128) -> (r: i64)
    ensures
        r as int == clamp_i64(x as int),
{
    if x < i64::MIN as i128 {
        i64::MIN
    } else if x > i64::MAX as i128 {
        i64::MAX
    } else {
        x as i64
    }
}

/// The field-weighting rule: a title match is boosted by 1000, a subtitle
/// match by 500 and the best keyword match by 200; the best boosted sub-score
/// wins.  A category match never matches on its own but adds a tenth of its
/// sub-score when some other field matched.  Title highlights are kept
/// whenever the title matched; subtitle highlights only when the subtitle
/// match won over the title.
pub open spec fn spec_compose(
    title_m: Option<(int, Seq<(int, int)>)>,
    subtitle_m: Option<(int, Seq<(int, int)>)>,
    keyword_s: Option<int>,
    category_s: Option<int>,
) -> Option<(int, Seq<(int, int)>, Seq<(int, int)>)> {
    let best1: Option<int> = match title_m {
        Some(p) => Some(p.0 + 1000),
        None => None,
    };
    let best2: Option<int> = match subtitle_m {
        Some(p) => (match best1 {
            None => Some(p.0 + 500),
            Some(b) => if p.0 + 500 > b {
                Some(p.0 + 500)
            } else {
                Some(b)
            },
        }),
        None => best1,
    };
    let best3: Option<int> = match keyword_s {
        Some(s) => (match best2 {
            None => Some(s + 200),
            Some(b) => if s + 200 > b {
                Some(s + 200)
            } else {
                Some(b)
            },
        }),
        None => best2,
    };
    let best4: Option<int> = match (best3, category_s) {
        (Some(b), Some(c)) => Some(b + div10_trunc(c)),
        _ => best3,
    };
    let subtitle_wins = match (subtitle_m, title_m) {
        (Some(sp), Some(tp)) => sp.0 + 500 > tp.0 + 1000,
        (Some(sp), None) => true,
        _ => false,
    };
    match best4 {
        None => None,
        Some(sc) => Some(
            (
                sc,
                (match title_m {
                    Some(p) => p.1,
                    None => Seq::empty(),
                }),
                (match subtitle_m {
                    Some(sp) => if subtitle_wins {
                        sp.1
                    } else {
                        Seq::empty()
                    },
                    None => Seq::empty(),
                }),
            ),
        ),
    }
}

/// Combines the per-field sub-matches into one match, clamping the final
/// score into the 64-bit range.
pub fn compose_match(
    title_m: Option<(i64, Vec<(usize, usize)>)>,
    subtitle_m: Option<(i64, Vec<(usize, usize)>)>,
    keyword_s: Option<i64>,
    category_s: Option<i64>,
) -> (r: Option<CommandPaletteMatch>)
    ensures
        (match spec_compose(
            text_match_view(title_m),
            text_match_view(subtitle_m),
            score_view(keyword_s),
            score_view(category_s),
        ) {
            None => r is None,
            Some(p) => r matches Some(m) && m@.score == clamp_i64(p.0) && m@.title_ranges == p.1
                && m@.subtitle_ranges == p.2,
        }),
{
    let ghost spec_result = spec_compose(
        text_match_view(title_m),
        text_match_view(subtitle_m),
        score_view(keyword_s),
        score_view(category_s),
    );
    let mut best: Option<i128> = None;
    let mut title_ranges: Vec<(usize, usize)> = Vec::new();
    let mut subtitle_ranges: Vec<(usize, usize)> = Vec::new();
    proof {
        assert(pairs_view(title_ranges@) =~= Seq::<(int, int)>::empty());
        assert(pairs_view(subtitle_ranges@) =~= Seq::<(int, int)>::empty());
    }
    if let Some((s, tr)) = title_m {
        best = Some(s as i128 + 1000);
        title_ranges = tr;
    }
    if let Some((s, sr)) = subtitle_m {
        let adj: i128 = s as i128 + 500;
        let take = match best {
            None => true,
            Some(b) => adj > b,
        };
        if take {
            best = Some(adj);
            subtitle_ranges = sr;
        }
    }
    if let Some(s) = keyword_s {
        let adj: i128 = s as i128 + 200;
        let take = match best {
            None => true,
            Some(b) => adj > b,
        };
        if take {
            best = Some(adj);
        }
    }
    if let Some(c) = category_s {
        if let Some(b) = best {
            best = Some(b + div10_i64(c));
        }
    }
    match best {
        None => None,
        Some(sc) => Some(CommandPaletteMatch {
            score: clamp_to_i64(sc),
            title_ranges,
            subtitle_ranges,
        }),
    }
}

/// Mathematical value of one back-end text match result.
pub open spec fn text_match_view(o: Option<(i64, Vec<(usize, usize)>)>) -> Option<
    (int, Seq<(int, int)>),
> {
    match o {
        Some(p) => Some((p.0 as int, pairs_view(p.1@))),
        None => None,
    }
}

/// Mathematical value of an optional score.
pub open spec fn score_view(o: Option<i64>) -> Option<int> {
    match o {
        Some(s) => Some(s as int),
        None => None,
    }
}

/// The best sub-score among the keywords that match the query.
pub open spec fn spec_best_keyword(
    kind: CommandMatcherKind,
    query: Seq<char>,
    keywords: Seq<Seq<char>>,
) -> Option<int>
    decreases keywords.len(),
{
    if keywords.len() == 0 {
        None
    } else {
        let rest = spec_best_keyword(kind, query, keywords.drop_last());
        match spec_match_text(kind, query, keywords.last()) {
            None => rest,
            Some(p) => (match rest {
                None => Some(p.0),
                Some(b) => if p.0 > b {
                    Some(p.0)
                } else {
                    Some(b)
                },
            }),
        }
    }
}

fn best_keyword_score(kind: CommandMatcherKind, query: &str, keywords: &Vec<String>) -> (r: Option<
    i64,
>)
    ensures
        score_view(r) == spec_best_keyword(kind, query@, keywords.deep_view()),
{
    let mut best: Option<i64> = None;
    let mut i: usize = 0;
    while i < keywords.len()
        invariant
            0 <= i <= keywords@.len(),
            score_view(best) == spec_best_keyword(kind, query@, keywords.deep_view().take(i as int)),
        decreases keywords@.len() - i,
    {
        proof {
            assert(keywords.deep_view().take(i + 1).drop_last() =~= keywords.deep_view().take(
                i as int,
            ));
            assert(keywords.deep_view().take(i + 1).last() == keywords.deep_view()[i as int]);
            assert(keywords.deep_view()[i as int] == keywords@[i as int]@);
        }
        match match_text(kind, query, keywords[i].as_str()) {
            Some((s, _)) => {
                let take = match best {
                    None => true,
                    Some(b) => s > b,
                };
                if take {
                    best = Some(s);
                }
            },
            None => {},
        }
        i = i + 1;
    }
    proof {
        assert(keywords.deep_view().take(keywords.deep_view().len() as int) =~= keywords.deep_view());
    }
    best
}

/// One back-end's match of a whole item: the sub-matches of title, subtitle,
/// keywords and category, composed by the field-weighting rule.  The empty
/// query matches every item with score zero and no highlights.
pub open spec fn spec_match_item_kind(
    kind: CommandMatcherKind,
    query: Seq<char>,
    item: ItemView,
) -> Option<MatchView> {
    if query.len() == 0 {
        Some(MatchView {
            score: 0,
            title_ranges: Seq::empty(),
            subtitle_ranges: Seq::empty(),
        })
    } else {
        let title_m = spec_match_text(kind, query, item.title);
        let subtitle_m = match item.subtitle {
            Some(t) => spec_match_text(kind, query, t),
            None => None,
        };
        let keyword_s = spec_best_keyword(kind, query, item.keywords);
        let category_s = match spec_match_text(kind, query, item.category) {
            Some(p) => Some(p.0),
            None => None,
        };
        match spec_compose(title_m, subtitle_m, keyword_s, category_s) {
            None => None,
            Some(p) => Some(
                MatchView { score: clamp_i64(p.0), title_ranges: p.1, subtitle_ranges: p.2 },
            ),
        }
    }
}

/// Matches one item with the chosen back-end.
fn match_item_kind(kind: CommandMatcherKind, query: &str, item: &CommandPaletteItem) -> (r: Option<
    CommandPaletteMatch,
>)
    ensures
        (match r {
            Some(m) => spec_match_item_kind(kind, query@, item@) == Some(m@),
            None => spec_match_item_kind(kind, query@, item@) is None,
        }),
        query@.len() == 0 ==> (r matches Some(m) && m@.score == 0 && m@.title_ranges.len() == 0
            && m@.subtitle_ranges.len() == 0),
        (r matches Some(m) ==> ranges_wf(m@.title_ranges, item@.title)),
        (r matches Some(m) ==> (match item@.subtitle {
            Some(t) => ranges_wf(m@.subtitle_ranges, t),
            None => m@.subtitle_ranges.len() == 0,
        })),
{
    if query.is_empty() {
        let m = CommandPaletteMatch::new(0);
        proof {
            assert(m@.title_ranges =~= Seq::<(int, int)>::empty());
            assert(m@.subtitle_ranges =~= Seq::<(int, int)>::empty());
        }
        return Some(m);
    }
    let title_m = match_text(kind, query, item.title.as_str());
    let subtitle_m = match &item.subtitle {
        Some(s) => match_text(kind, query, s.as_str()),
        None => None,
    };
    let keyword_s = best_keyword_score(kind, query, &item.keywords);
    let category_s = match match_text(kind, query, item.category.as_str()) {
        Some((s, _)) => Some(s),
        None => None,
    };
    compose_match(title_m, subtitle_m, keyword_s, category_s)
}

/// Nucleo-backed fuzzy matcher (the default back-end).
#[derive(Clone, Copy, Debug, Default)]
pub struct NucleoMatcher;

impl NucleoMatcher {
    pub fn new() -> (r: Self) {
        NucleoMatcher
    }
}

impl CommandMatcher for NucleoMatcher {
    open spec fn spec_match(&self, query: Seq<char>, item: ItemView) -> Option<MatchView> {
        spec_match_item_kind(CommandMatcherKind::Nucleo, query, item)
    }

    fn match_item(&self, query: &str, item: &CommandPaletteItem) -> (r: Option<
        CommandPaletteMatch,
    >) {
        match_item_kind(CommandMatcherKind::Nucleo, query, item)
    }
}

/// Skim-backed fuzzy matcher (the `fuzzy-matcher` crate).
#[derive(Clone, Copy, Debug, Default)]
pub struct FuzzyMatcherWrapper;

impl FuzzyMatcherWrapper {
    pub fn new() -> (r: Self) {
        FuzzyMatcherWrapper
    }
}

impl CommandMatcher for FuzzyMatcherWrapper {
    open spec fn spec_match(&self, query: Seq<char>, item: ItemView) -> Option<MatchView> {
        spec_match_item_kind(CommandMatcherKind::FuzzyMatcher, query, item)
    }

    fn match_item(&self, query: &str, item: &CommandPaletteItem) -> (r: Option<
        CommandPaletteMatch,
    >) {
        match_item_kind(CommandMatcherKind::FuzzyMatcher, query, item)
    }
}

impl CommandMatcher for CommandMatcherKind {
    open spec fn spec_match(&self, query: Seq<char>, item: ItemView) -> Option<MatchView> {
        spec_match_item_kind(*self, query, item)
    }

    fn match_item(&self, query: &str, item: &CommandPaletteItem) -> (r: Option<
        CommandPaletteMatch,
    >) {
        match_item_kind(*self, query, item)
    }
}

/// The empty query matches every item, with score zero and no highlights,
/// under either back-end.
pub proof fn lemma_empty_query_matches_all(kind: CommandMatcherKind, item: ItemView)
    ensures
        spec_match_item_kind(kind, Seq::empty(), item) == Some(MatchView {
            score: 0,
            title_ranges: Seq::<(int, int)>::empty(),
            subtitle_ranges: Seq::<(int, int)>::empty(),
        }),
{
}

/// The field weights order sub-matches of equal raw quality: a title match
/// outranks a subtitle match, which outranks a keyword match, by exactly the
/// 1000/500/200 boosts.
pub proof fn lemma_field_weighting(s: int, tr: Seq<(int, int)>, sr: Seq<(int, int)>)
    ensures
        spec_compose(Some((s, tr)), None, None, None) == Some(
            (s + 1000, tr, Seq::<(int, int)>::empty()),
        ),
        spec_compose(None, Some((s, sr)), None, None) == Some(
            (s + 500, Seq::<(int, int)>::empty(), sr),
        ),
        spec_compose(None, None, Some(s), None) == Some(
            (s + 200, Seq::<(int, int)>::empty(), Seq::<(int, int)>::empty()),
        ),
        spec_compose(None, None, None, Some(s)) is None,
{
}

} // verus!
