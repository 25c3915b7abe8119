//! Row layout of the result list: where section headers sit between the
//! static and asynchronous results, and how an item index maps to a row
//! index.

use vstd::prelude::*;

use crate::state::CommandPaletteState;
use crate::types::CommandMatcher;

verus! {

/// One row of the rendered list: a section header or the item at an index
/// into the matched list.
pub enum CommandPaletteRow {
    Header(String),
    Item(usize),
}

/// The rows `Item(from)`, `Item(from + 1)`, …, `Item(to - 1)`.
pub open spec fn item_rows(from: int, to: int) -> Seq<CommandPaletteRow> {
    Seq::new((to - from) as nat, |k: int| CommandPaletteRow::Item((from + k) as usize))
}

/// The row list for `n` matched items of which the first `static_len` are
/// static.  While the query is empty only the static items are listed, bare;
/// otherwise each non-empty section is preceded by its title, where one is
/// configured.
pub open spec fn rows_spec(
    query_empty: bool,
    n: int,
    static_len: int,
    commands_title: Option<String>,
    results_title: Option<String>,
) -> Seq<CommandPaletteRow> {
    let sl = if static_len <= n {
        static_len
    } else {
        n
    };
    let al = n - sl;
    if query_empty {
        item_rows(0, sl)
    } else {
        (if sl > 0 {
            (match commands_title {
                Some(t) => seq![CommandPaletteRow::Header(t)],
                None => Seq::empty(),
            }) + item_rows(0, sl)
        } else {
            Seq::empty()
        }) + (if al > 0 {
            (match results_title {
                Some(t) => seq![CommandPaletteRow::Header(t)],
                None => Seq::empty(),
            }) + item_rows(sl, n)
        } else {
            Seq::empty()
        })
    }
}

fn push_item_rows(out: &mut Vec<CommandPaletteRow>, from: usize, to: usize)
    requires
        from <= to,
    ensures
        final(out)@ == old(out)@ + item_rows(from as int, to as int),
{
    let ghost base = out@;
    let mut k = from;
    while k < to
        invariant
            from <= k <= to,
            out@ == base + item_rows(from as int, k as int),
        decreases to - k,
    {
        out.push(CommandPaletteRow::Item(k));
        proof {
            assert(out@ =~= base + item_rows(from as int, k + 1));
        }
        k = k + 1;
    }
}

/// Builds the row list for the current state.
pub fn build_rows<M: CommandMatcher>(state: &CommandPaletteState<M>) -> (r: Vec<CommandPaletteRow>)
    ensures
        r@ == rows_spec(
            state.query@.len() == 0,
            state.matched_items@.len() as int,
            state.matched_static_len as int,
            state.config.commands_section_title,
            state.config.results_section_title,
        ),
{
    let n = state.matched_items.len();
    let sl = if state.matched_static_len <= n {
        state.matched_static_len
    } else {
        n
    };
    let al = n - sl;
    let query_empty = state.query.as_str().is_empty();
    let mut rows: Vec<CommandPaletteRow> = Vec::new();
    proof {
        assert(rows@ =~= Seq::<CommandPaletteRow>::empty());
    }
    if query_empty {
        push_item_rows(&mut rows, 0, sl);
        proof {
            assert(rows@ =~= item_rows(0, sl as int));
        }
        return rows;
    }
    let ghost first_part = rows_first_section(
        n as int,
        sl as int,
        state.config.commands_section_title,
    );
    if sl > 0 {
        match &state.config.commands_section_title {
            Some(t) => {
                rows.push(CommandPaletteRow::Header(t.clone()));
            },
            None => {},
        }
        push_item_rows(&mut rows, 0, sl);
    }
    proof {
        assert(rows@ =~= first_part);
    }
    if al > 0 {
        match &state.config.results_section_title {
            Some(t) => {
                rows.push(CommandPaletteRow::Header(t.clone()));
            },
            None => {},
        }
        push_item_rows(&mut rows, sl, n);
        proof {
            assert(rows@ =~= first_part + (match state.config.results_section_title {
                Some(t) => seq![CommandPaletteRow::Header(t)],
                None => Seq::<CommandPaletteRow>::empty(),
            }) + item_rows(sl as int, n as int));
        }
    }
    proof {
        assert(rows@ =~= rows_spec(
            state.query@.len() == 0,
            state.matched_items@.len() as int,
            state.matched_static_len as int,
            state.config.commands_section_title,
            state.config.results_section_title,
        ));
    }
    rows
}

/// The leading rows: the commands section when it has items.
pub open spec fn rows_first_section(n: int, sl: int, commands_title: Option<String>) -> Seq<
    CommandPaletteRow,
> {
    if sl > 0 {
        (match commands_title {
            Some(t) => seq![CommandPaletteRow::Header(t)],
            None => Seq::empty(),
        }) + item_rows(0, sl)
    } else {
        Seq::empty()
    }
}

/// The row index at which the item with the given index is rendered.
pub open spec fn row_index_spec(
    query_empty: bool,
    n: int,
    static_len: int,
    commands_title: Option<String>,
    results_title: Option<String>,
    item_index: int,
) -> int {
    let sl = if static_len <= n {
        static_len
    } else {
        n
    };
    let al = n - sl;
    if query_empty {
        item_index
    } else {
        let commands_header: int = if sl > 0 && commands_title is Some {
            1
        } else {
            0
        };
        let results_header: int = if al > 0 && results_title is Some {
            1
        } else {
            0
        };
        if item_index >= sl {
            item_index + commands_header + results_header
        } else {
            item_index + commands_header
        }
    }
}

/// Maps an item index to its row index in the built row list.
pub fn row_index_for_item<M: CommandMatcher>(state: &CommandPaletteState<M>, item_index: usize) -> (r:
    usize)
    requires
        item_index as int + 2 <= usize::MAX,
    ensures
        r as int == row_index_spec(
            state.query@.len() == 0,
            state.matched_items@.len() as int,
            state.matched_static_len as int,
            state.config.commands_section_title,
            state.config.results_section_title,
            item_index as int,
        ),
{
    let n = state.matched_items.len();
    let sl = if state.matched_static_len <= n {
        state.matched_static_len
    } else {
        n
    };
    let al = n - sl;
    if state.query.as_str().is_empty() {
        return item_index;
    }
    let commands_header = sl > 0 && (match &state.config.commands_section_title {
        Some(_) => true,
        None => false,
    });
    let results_header = al > 0 && (match &state.config.results_section_title {
        Some(_) => true,
        None => false,
    });
    let mut row = item_index;
    if commands_header {
        row = row + 1;
    }
    if item_index >= sl && results_header {
        row = row + 1;
    }
    row
}

} // verus!
