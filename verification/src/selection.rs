//! Which of the roots are scanned, by position.
use crate::text::{
    chars_of, decimal, decimal_of, equal_ignoring_case, find_char, index_of, join, joined,
    parse_usize, parsed_usize, same_ignoring_case, sub_chars, texts, trim_chars, trimmed,
};
use crate::index_set::{ascending_list, insert_positions};
use std::collections::BTreeSet;
use std::str::FromStr;
use vstd::prelude::*;

verus! {

/// A choice among the roots, by position counted from 1.
#[derive(Debug)]
pub enum ScanSelection {
    /// No root.
    Nothing,
    /// Every root.
    All,
    /// The roots at these positions: counted from 1, ascending, each once.
    Indices(Vec<usize>),
}

/// Mathematical value of a [`ScanSelection`].
pub enum SelectionView {
    Nothing,
    All,
    Indices(Seq<usize>),
}

impl View for ScanSelection {
    type V = SelectionView;

    open spec fn view(&self) -> SelectionView {
        match *self {
            ScanSelection::Nothing => SelectionView::Nothing,
            ScanSelection::All => SelectionView::All,
            ScanSelection::Indices(v) => SelectionView::Indices(v@),
        }
    }
}

/// Why a text is no selection.
#[derive(Debug, Clone, Copy, PartialEq, Eq, Structural)]
pub enum SelectionError {
    /// An item is no number.
    InvalidIndex,
    /// The start of a range is no number.
    InvalidRangeStart,
    /// The end of a range is no number.
    InvalidRangeEnd,
    /// A position is 0; positions count from 1.
    ZeroIndex,
    /// A range ends before it starts.
    InvertedRange,
}

impl SelectionError {
    /// A one-line description.
    pub fn to_string(&self) -> (s: String)
        ensures
            s@ == (match *self {
                SelectionError::InvalidIndex => "invalid index"@,
                SelectionError::InvalidRangeStart => "invalid range start"@,
                SelectionError::InvalidRangeEnd => "invalid range end"@,
                SelectionError::ZeroIndex => "scan indices are 1-based; got 0"@,
                SelectionError::InvertedRange => "invalid range (start > end)"@,
            }),
    {
        match self {
            SelectionError::InvalidIndex => "invalid index".to_owned(),
            SelectionError::InvalidRangeStart => "invalid range start".to_owned(),
            SelectionError::InvalidRangeEnd => "invalid range end".to_owned(),
            SelectionError::ZeroIndex => "scan indices are 1-based; got 0".to_owned(),
            SelectionError::InvertedRange => "invalid range (start > end)".to_owned(),
        }
    }
}

/// One item of a selection: the positions from `first` to `last`, or
/// nothing where `first` is 0.
pub struct Item {
    pub first: usize,
    pub last: usize,
}

/// Whether an item selects position `n`.
pub open spec fn covers(item: Item, n: usize) -> bool {
    item.first != 0 && item.first <= n <= item.last
}

/// The item that a part between two commas writes. White space around
/// the part, around a number and the empty part do not count. A part with
/// a `-` is a range `N-M`, any other a single position `N`.
pub open spec fn item_of(part: Seq<char>) -> Result<Item, SelectionError> {
    let p = trimmed(part);
    let dash = index_of(p, '-');
    if p.len() == 0 {
        Ok(Item { first: 0, last: 0 })
    } else if dash < p.len() {
        match parsed_usize(trimmed(p.subrange(0, dash))) {
            None => Err(SelectionError::InvalidRangeStart),
            Some(first) => match parsed_usize(trimmed(p.subrange(dash + 1, p.len() as int))) {
                None => Err(SelectionError::InvalidRangeEnd),
                Some(last) => if first == 0 || last == 0 {
                    Err(SelectionError::ZeroIndex)
                } else if first > last {
                    Err(SelectionError::InvertedRange)
                } else {
                    Ok(Item { first, last })
                },
            },
        }
    } else {
        match parsed_usize(p) {
            None => Err(SelectionError::InvalidIndex),
            Some(n) => if n == 0 {
                Err(SelectionError::ZeroIndex)
            } else {
                Ok(Item { first: n, last: n })
            },
        }
    }
}

/// The items of a list separated by commas, in order; the first fault
/// where a part is no item.
pub open spec fn items_of(s: Seq<char>) -> Result<Seq<Item>, SelectionError>
    decreases s.len(),
{
    let comma = index_of(s, ',');
    if comma < 0 || comma >= s.len() {
        match item_of(s) {
            Ok(item) => Ok(seq![item]),
            Err(e) => Err(e),
        }
    } else {
        match item_of(s.subrange(0, comma)) {
            Err(e) => Err(e),
            Ok(item) => match items_of(s.subrange(comma + 1, s.len() as int)) {
                Ok(rest) => Ok(seq![item] + rest),
                Err(e) => Err(e),
            },
        }
    }
}

/// Whether one of the items selects position `n`.
pub open spec fn selected(items: Seq<Item>, n: usize) -> bool {
    exists|k: int| 0 <= k < items.len() && covers(#[trigger] items[k], n)
}

/// Whether the numbers stand in ascending order, each once.
pub open spec fn ascending(v: Seq<usize>) -> bool {
    forall|i: int, j: int| 0 <= i < j < v.len() ==> v[i] < v[j]
}

/// Whether `sel` is what the text `s` selects: every root for `all`, in
/// any case, and for the empty text; else the positions that the items of
/// `s` select, ascending, each once, and no root where they select none.
pub open spec fn selects(s: Seq<char>, sel: SelectionView) -> bool {
    let t = trimmed(s);
    if t.len() == 0 || same_ignoring_case(t, "all"@) {
        sel is All
    } else {
        match items_of(t) {
            Err(_) => false,
            Ok(items) => match sel {
                SelectionView::All => false,
                SelectionView::Nothing => forall|n: usize| !selected(items, n),
                SelectionView::Indices(v) => v.len() > 0 && ascending(v) && forall|n: usize|
                    v.contains(n) <==> selected(items, n),
            },
        }
    }
}

/// The fault of a text that is no selection: that of its first item that
/// is neither a position nor a range of positions. A word other than
/// `all` is such an item.
pub open spec fn selection_fault(s: Seq<char>) -> Option<SelectionError> {
    let t = trimmed(s);
    if t.len() == 0 || same_ignoring_case(t, "all"@) {
        None
    } else {
        match items_of(t) {
            Err(e) => Some(e),
            Ok(_) => None,
        }
    }
}

/// A word is no selection: a text without white space at its ends, without
/// comma and dash, that is not `all` in any case and begins with neither
/// a digit nor `+`, has the fault of an invalid index. `none` is such a
/// text.
pub proof fn word_is_no_selection(s: Seq<char>)
    requires
        s.len() > 0,
        !crate::text::is_space(s[0]),
        !crate::text::is_space(s.last()),
        !same_ignoring_case(s, "all"@),
        !s.contains(','),
        !s.contains('-'),
        s[0] != '+',
        !(48 <= s[0] as int <= 57),
    ensures
        selection_fault(s) == Some(SelectionError::InvalidIndex),
{
    crate::text::lemma_trim_start(s, 0);
    assert(s.subrange(0, s.len() as int) =~= s);
    crate::text::lemma_trim_end(s, s.len() as int);
    assert(trimmed(s) == s);
    crate::text::lemma_index_of(s, ',');
    crate::text::lemma_index_of(s, '-');
    if index_of(s, ',') < s.len() {
        assert(s.contains(s[index_of(s, ',')]));
    }
    if index_of(s, '-') < s.len() {
        assert(s.contains(s[index_of(s, '-')]));
    }
    assert(!crate::text::all_digits(s));
    assert(parsed_usize(s) is None);
    assert(item_of(s) == Err::<Item, SelectionError>(SelectionError::InvalidIndex));
}

fn read_item(part: &Vec<char>) -> (r: Result<Item, SelectionError>)
    ensures
        r == item_of(part@),
{
    let p = trim_chars(part);
    let n = p.len();
    if n == 0 {
        return Ok(Item { first: 0, last: 0 });
    }
    let dash = find_char(&p, '-', 0);
    proof {
        assert(p@.subrange(0, n as int) =~= p@);
    }
    if dash < n {
        let first = match parse_usize(&trim_chars(&sub_chars(&p, 0, dash))) {
            Some(v) => v,
            None => {
                return Err(SelectionError::InvalidRangeStart);
            },
        };
        let last = match parse_usize(&trim_chars(&sub_chars(&p, dash + 1, n))) {
            Some(v) => v,
            None => {
                return Err(SelectionError::InvalidRangeEnd);
            },
        };
        if first == 0 || last == 0 {
            return Err(SelectionError::ZeroIndex);
        }
        if first > last {
            return Err(SelectionError::InvertedRange);
        }
        Ok(Item { first, last })
    } else {
        match parse_usize(&p) {
            None => Err(SelectionError::InvalidIndex),
            Some(v) => if v == 0 {
                Err(SelectionError::ZeroIndex)
            } else {
                Ok(Item { first: v, last: v })
            },
        }
    }
}

/// Puts every position of `item` into the set.
fn insert_item(set: &mut BTreeSet<usize>, item: &Item)
    ensures
        forall|n: usize|
            #[trigger] final(set)@.contains(n) <==> (old(set)@.contains(n) || covers(*item, n)),
{
    if item.first == 0 || item.first > item.last {
        return ;
    }
    insert_positions(set, item.first, item.last);
}

/// Prepends `done` to what the rest of a list of items gives.
pub open spec fn after_items(done: Seq<Item>, rest: Result<Seq<Item>, SelectionError>) -> Result<
    Seq<Item>,
    SelectionError,
> {
    match rest {
        Ok(more) => Ok(done + more),
        Err(e) => Err(e),
    }
}

impl ScanSelection {
    /// Whether the root at position `zero_index`, counted from 0, is selected.
    pub fn should_scan(&self, zero_index: usize) -> (r: bool)
        ensures
            r == (match self@ {
                SelectionView::Nothing => false,
                SelectionView::All => true,
                SelectionView::Indices(v) => zero_index < usize::MAX && v.contains(
                    (zero_index + 1) as usize,
                ),
            }),
    {
        match self {
            ScanSelection::Nothing => false,
            ScanSelection::All => true,
            ScanSelection::Indices(v) => {
                if zero_index == usize::MAX {
                    return false;
                }
                let want: usize = zero_index + 1;
                let mut i: usize = 0;
                while i < v.len()
                    invariant
                        i <= v@.len(),
                        self@ == SelectionView::Indices(v@),
                        want == zero_index + 1,
                        forall|k: int| 0 <= k < i ==> v@[k] != want,
                    decreases v@.len() - i,
                {
                    if v[i] == want {
                        assert(v@[i as int] == want);
                        return true;
                    }
                    i = i + 1;
                }
                false
            },
        }
    }

    /// The selection as text: `none`, `all`, or the positions with commas
    /// between them.
    pub fn to_string(&self) -> (s: String)
        ensures
            s@ == (match self@ {
                SelectionView::Nothing => "none"@,
                SelectionView::All => "all"@,
                SelectionView::Indices(v) => joined(
                    Seq::new(v.len(), |i: int| decimal_of(v[i] as nat)),
                    ","@,
                ),
            }),
    {
        match self {
            ScanSelection::Nothing => "none".to_owned(),
            ScanSelection::All => "all".to_owned(),
            ScanSelection::Indices(v) => {
                let mut parts: Vec<String> = Vec::new();
                let mut i: usize = 0;
                while i < v.len()
                    invariant
                        i <= v@.len(),
                        parts@.len() == i,
                        forall|k: int| 0 <= k < i ==> parts@[k]@ == decimal_of(v@[k] as nat),
                    decreases v@.len() - i,
                {
                    parts.push(decimal(v[i]));
                    i = i + 1;
                }
                assert(texts(parts@) =~= Seq::new(v@.len(), |i: int| decimal_of(v@[i] as nat)));
                join(&parts, ",")
            },
        }
    }

    /// Reads a selection: `all`, or a list of positions and ranges of
    /// positions such as `1-3,5`. Positions count from 1; a position 0, a
    /// range that ends before it starts and any other word are faults.
    #[verifier::rlimit(60)]
    pub fn parse(s: &str) -> (r: Result<ScanSelection, SelectionError>)
        ensures
            match r {
                Ok(sel) => selection_fault(s@) is None && selects(s@, sel@),
                Err(e) => selection_fault(s@) == Some(e),
            },
    {
        let t = trim_chars(&chars_of(s));
        if t.len() == 0 || equal_ignoring_case(&t, &chars_of("all")) {
            return Ok(ScanSelection::All);
        }
        let n = t.len();
        let mut set: BTreeSet<usize> = BTreeSet::new();
        let mut pos: usize = 0;
        let ghost mut done: Seq<Item> = Seq::empty();
        proof {
            assert(t@.subrange(0, n as int) =~= t@);
            lemma_after_nothing(items_of(t@));
        }
        loop
            invariant_except_break
                items_of(t@) == after_items(done, items_of(t@.subrange(pos as int, n as int))),
            invariant
                pos <= n,
                n == t@.len(),
                t@ == trimmed(s@),
                t@.len() > 0,
                !same_ignoring_case(t@, "all"@),
                forall|x: usize| #[trigger] set@.contains(x) <==> selected(done, x),
            ensures
                items_of(t@) == Ok::<Seq<Item>, SelectionError>(done),
                forall|x: usize| #[trigger] set@.contains(x) <==> selected(done, x),
            decreases n - pos,
        {
            let ghost rest = t@.subrange(pos as int, n as int);
            let comma = find_char(&t, ',', pos);
            let part = sub_chars(&t, pos, comma);
            proof {
                assert(part@ =~= rest.subrange(0, comma - pos));
                if comma == n {
                    assert(part@ =~= rest);
                } else {
                    assert(rest.subrange(comma - pos + 1, rest.len() as int) =~= t@.subrange(
                        comma + 1,
                        n as int,
                    ));
                }
                lemma_items_step(done, rest);
            }
            let item = match read_item(&part) {
                Ok(item) => item,
                Err(e) => {
                    return Err(e);
                },
            };
            let ghost before = set@;
            insert_item(&mut set, &item);
            proof {
                lemma_selected_push(done, item);
                assert forall|x: usize| #[trigger] set@.contains(x) <==> selected(
                    done.push(item),
                    x,
                ) by {
                    assert(set@.contains(x) <==> (before.contains(x) || covers(item, x)));
                    assert(before.contains(x) <==> selected(done, x));
                }
                done = done.push(item);
            }
            if comma == n {
                break ;
            }
            pos = comma + 1;
        }
        let v = ascending_list(&set);
        if v.len() == 0 {
            proof {
                assert forall|x: usize| !selected(done, x) by {
                    assert(!v@.contains(x));
                }
            }
            Ok(ScanSelection::Nothing)
        } else {
            Ok(ScanSelection::Indices(v))
        }
    }
}

/// Nothing prepended changes nothing.
pub proof fn lemma_after_nothing(rest: Result<Seq<Item>, SelectionError>)
    ensures
        after_items(Seq::empty(), rest) == rest,
{
    match rest {
        Ok(more) => {
            assert(Seq::<Item>::empty() + more =~= more);
        },
        Err(_) => {},
    }
}

/// The items of a text, by its first part and what follows the first comma.
pub proof fn lemma_items_step(done: Seq<Item>, rest: Seq<char>)
    ensures
        ({
            let comma = index_of(rest, ',');
            let part = if comma >= rest.len() {
                rest
            } else {
                rest.subrange(0, comma)
            };
            after_items(done, items_of(rest)) == (match item_of(part) {
                Err(e) => Err(e),
                Ok(item) => if comma >= rest.len() {
                    Ok(done.push(item))
                } else {
                    after_items(
                        done.push(item),
                        items_of(rest.subrange(comma + 1, rest.len() as int)),
                    )
                },
            })
        }),
{
    crate::text::lemma_index_of(rest, ',');
    let comma = index_of(rest, ',');
    let part = if comma >= rest.len() {
        rest
    } else {
        rest.subrange(0, comma)
    };
    match item_of(part) {
        Err(_) => {},
        Ok(item) => {
            if comma >= rest.len() {
                assert(done + seq![item] =~= done.push(item));
            } else {
                match items_of(rest.subrange(comma + 1, rest.len() as int)) {
                    Ok(more) => {
                        assert(done + (seq![item] + more) =~= done.push(item) + more);
                    },
                    Err(_) => {},
                }
            }
        },
    }
}

/// One more item selects what it covers beside what was selected.
pub proof fn lemma_selected_push(done: Seq<Item>, item: Item)
    ensures
        forall|x: usize| selected(done.push(item), x) <==> (selected(done, x) || covers(item, x)),
{
    let grown = done.push(item);
    assert forall|x: usize| selected(grown, x) <==> (selected(done, x) || covers(item, x)) by {
        if selected(done, x) {
            let k = choose|k: int| 0 <= k < done.len() && covers(#[trigger] done[k], x);
            assert(covers(grown[k], x));
        }
        if covers(item, x) {
            assert(covers(grown[done.len() as int], x));
        }
        if selected(grown, x) {
            let k = choose|k: int| 0 <= k < grown.len() && covers(#[trigger] grown[k], x);
            if k < done.len() {
                assert(covers(done[k], x));
            }
        }
    }
}

impl FromStr for ScanSelection {
    type Err = SelectionError;

    fn from_str(s: &str) -> (r: Result<ScanSelection, SelectionError>)
        ensures
            match r {
                Ok(sel) => selection_fault(s@) is None && selects(s@, sel@),
                Err(e) => selection_fault(s@) == Some(e),
            },
    {
        ScanSelection::parse(s)
    }
}

impl Clone for ScanSelection {
    fn clone(&self) -> (c: ScanSelection)
        ensures
            c@ == self@,
    {
        match self {
            ScanSelection::Nothing => ScanSelection::Nothing,
            ScanSelection::All => ScanSelection::All,
            ScanSelection::Indices(v) => {
                let mut w: Vec<usize> = Vec::new();
                let mut i: usize = 0;
                while i < v.len()
                    invariant
                        i <= v@.len(),
                        w@ == v@.subrange(0, i as int),
                    decreases v@.len() - i,
                {
                    w.push(v[i]);
                    i = i + 1;
                }
                assert(w@ =~= v@);
                ScanSelection::Indices(w)
            },
        }
    }
}

impl PartialEq for ScanSelection {
    fn eq(&self, other: &ScanSelection) -> (r: bool) {
        match (self, other) {
            (ScanSelection::Nothing, ScanSelection::Nothing) => true,
            (ScanSelection::All, ScanSelection::All) => true,
            (ScanSelection::Indices(a), ScanSelection::Indices(b)) => {
                if a.len() != b.len() {
                    assert(a@.len() != b@.len());
                    return false;
                }
                let mut i: usize = 0;
                while i < a.len()
                    invariant
                        i <= a@.len(),
                        a@.len() == b@.len(),
                        self@ == SelectionView::Indices(a@),
                        other@ == SelectionView::Indices(b@),
                        a@.subrange(0, i as int) == b@.subrange(0, i as int),
                    decreases a@.len() - i,
                {
                    if a[i] != b[i] {
                        assert(a@[i as int] != b@[i as int]);
                        return false;
                    }
                    assert(a@.subrange(0, i + 1) =~= a@.subrange(0, i as int).push(a@[i as int]));
                    assert(b@.subrange(0, i + 1) =~= b@.subrange(0, i as int).push(b@[i as int]));
                    i = i + 1;
                }
                assert(a@ =~= a@.subrange(0, a@.len() as int));
                assert(b@ =~= b@.subrange(0, b@.len() as int));
                true
            },
            _ => false,
        }
    }
}

impl vstd::std_specs::cmp::PartialEqSpecImpl for ScanSelection {
    open spec fn obeys_eq_spec() -> bool {
        true
    }

    open spec fn eq_spec(&self, other: &ScanSelection) -> bool {
        self@ == other@
    }
}

/// What an audit does beside looking up advisories.
#[derive(Debug)]
pub struct AuditOptions {
    /// Which roots are scanned.
    pub scan: ScanSelection,
    /// Whether refs are resolved to commits.
    pub resolve_refs: bool,
    /// How many nodes are processed at once.
    pub max_concurrency: usize,
    /// Whether dependencies are looked at.
    pub deps: bool,
}

impl Default for AuditOptions {
    fn default() -> (o: AuditOptions)
        ensures
            o.scan@ is Nothing,
            o.resolve_refs,
            o.max_concurrency == 10,
            !o.deps,
    {
        AuditOptions { scan: ScanSelection::Nothing, resolve_refs: true, max_concurrency: 10, deps: false }
    }
}

} // verus!
