use vstd::prelude::*;
use vstd::string::StringExecFns;

use crate::data::{ConfigItem, ConfigItemView, items_view};
use crate::text::{chars_to_string, find_chars, is_match_at, lemma_find_from_first, str_to_chars};

verus! {

/// A whitespace character: the Unicode White_Space set, as `trim` sees it.
pub open spec fn is_ws(c: char) -> bool {
    let u = c as u32;
    u == 0x20 || u == 0x09 || u == 0x0A || u == 0x0D || u == 0x0B || u == 0x0C || u == 0x85 || u
        == 0xA0 || u == 0x1680 || (0x2000 <= u && u <= 0x200A) || u == 0x2028 || u == 0x2029 || u
        == 0x202F || u == 0x205F || u == 0x3000
}

fn is_ws_exec(c: char) -> (r: bool)
    ensures
        r == is_ws(c),
{
    let u = c as u32;
    u == 0x20 || u == 0x09 || u == 0x0A || u == 0x0D || u == 0x0B || u == 0x0C || u == 0x85 || u
        == 0xA0 || u == 0x1680 || (0x2000 <= u && u <= 0x200A) || u == 0x2028 || u == 0x2029 || u
        == 0x202F || u == 0x205F || u == 0x3000
}

/// The string without its leading whitespace.
pub open spec fn trim_start(s: Seq<char>) -> Seq<char>
    decreases s.len(),
{
    if s.len() > 0 && is_ws(s[0]) {
        trim_start(s.skip(1))
    } else {
        s
    }
}

/// The string without its trailing whitespace.
pub open spec fn trim_end(s: Seq<char>) -> Seq<char>
    decreases s.len(),
{
    if s.len() > 0 && is_ws(s.last()) {
        trim_end(s.drop_last())
    } else {
        s
    }
}

/// The string without its leading and trailing whitespace.
pub open spec fn spec_trim(s: Seq<char>) -> Seq<char> {
    trim_end(trim_start(s))
}

/// The characters of `v` without leading and trailing whitespace, mirroring
/// `spec_trim`.
fn trim_chars(v: &Vec<char>) -> (r: Vec<char>)
    ensures
        r@ == spec_trim(v@),
{
    let n = v.len();
    proof {
        assert(v@.skip(0) =~= v@);
    }
    let mut lo: usize = 0;
    while lo < n && is_ws_exec(v[lo])
        invariant
            0 <= lo <= n,
            n == v@.len(),
            trim_start(v@) == trim_start(v@.skip(lo as int)),
        decreases n - lo,
    {
        proof {
            assert(v@.skip(lo as int)[0] == v@[lo as int]);
            assert(v@.skip(lo as int).skip(1) =~= v@.skip(lo as int + 1));
        }
        lo = lo + 1;
    }
    proof {
        assert(trim_start(v@) == v@.skip(lo as int));
    }
    let ghost t = v@.skip(lo as int);
    proof {
        assert(t.subrange(0, n - lo) =~= t);
    }
    let mut hi: usize = n;
    while hi > lo && is_ws_exec(v[hi - 1])
        invariant
            lo <= hi <= n,
            n == v@.len(),
            t == v@.skip(lo as int),
            trim_end(t) == trim_end(t.subrange(0, hi - lo)),
        decreases hi,
    {
        proof {
            let cur = t.subrange(0, hi - lo);
            assert(cur.last() == v@[hi - 1]);
            assert(cur.drop_last() =~= t.subrange(0, hi - 1 - lo));
        }
        hi = hi - 1;
    }
    proof {
        if hi > lo {
            assert(t.subrange(0, hi - lo).last() == v@[hi - 1]);
        }
        assert(trim_end(t) == t.subrange(0, hi - lo));
    }
    let mut r: Vec<char> = Vec::new();
    let mut k: usize = lo;
    while k < hi
        invariant
            lo <= k <= hi <= n,
            n == v@.len(),
            r@ == v@.subrange(lo as int, k as int),
        decreases hi - k,
    {
        r.push(v[k]);
        proof {
            assert(r@ =~= v@.subrange(lo as int, k as int + 1));
        }
        k = k + 1;
    }
    proof {
        assert(r@ =~= t.subrange(0, hi - lo));
    }
    r
}

/// The position of the first newline at or after `i`, or the length when none
/// follows.
pub open spec fn first_nl(s: Seq<char>, i: int) -> int
    decreases s.len() - i,
{
    if i < 0 || i >= s.len() {
        s.len() as int
    } else if s[i] == '\n' {
        i
    } else {
        first_nl(s, i + 1)
    }
}

/// The lines of `s`: the segments between newlines, as splitting on the
/// newline character yields them — one (empty) line even for the empty text.
pub open spec fn spec_lines(s: Seq<char>) -> Seq<Seq<char>>
    decreases s.len(),
{
    let j = first_nl(s, 0);
    if 0 <= j < s.len() {
        seq![s.subrange(0, j)] + spec_lines(s.subrange(j + 1, s.len() as int))
    } else {
        seq![s]
    }
}

/// A scan that stopped at the first newline pins `first_nl`.
proof fn lemma_first_nl_of(t: Seq<char>, i: int, m: int)
    requires
        0 <= i <= m <= t.len(),
        m < t.len() ==> t[m] == '\n',
        forall|k: int| i <= k < m ==> t[k] != '\n',
    ensures
        first_nl(t, i) == if m < t.len() {
            m
        } else {
            t.len() as int
        },
    decreases m - i,
{
    if i < m {
        lemma_first_nl_of(t, i + 1, m);
    }
}

/// Split `s` at newlines, mirroring `spec_lines`.
fn split_lines(s: &Vec<char>) -> (r: Vec<Vec<char>>)
    ensures
        r@.map_values(|l: Vec<char>| l@) == spec_lines(s@),
{
    let n = s.len();
    let mut r: Vec<Vec<char>> = Vec::new();
    proof {
        assert(s@.subrange(0, n as int) =~= s@);
        assert(r@.map_values(|l: Vec<char>| l@) + spec_lines(s@) =~= spec_lines(s@));
    }
    let mut pos: usize = 0;
    loop
        invariant
            0 <= pos <= n,
            n == s@.len(),
            spec_lines(s@) == r@.map_values(|l: Vec<char>| l@) + spec_lines(
                s@.subrange(pos as int, n as int),
            ),
        decreases n - pos,
    {
        let ghost suffix = s@.subrange(pos as int, n as int);
        let mut j: usize = pos;
        while j < n && s[j] != '\n'
            invariant
                pos <= j <= n,
                n == s@.len(),
                forall|k: int| pos <= k < j ==> s@[k] != '\n',
            decreases n - j,
        {
            j = j + 1;
        }
        proof {
            assert forall|k: int| 0 <= k < j - pos implies suffix[k] != '\n' by {
                assert(suffix[k] == s@[pos + k]);
            }
            if j < n {
                assert(suffix[j - pos] == s@[j as int]);
            }
            lemma_first_nl_of(suffix, 0, j - pos);
        }
        let mut line: Vec<char> = Vec::new();
        let mut k: usize = pos;
        while k < j
            invariant
                pos <= k <= j <= n,
                n == s@.len(),
                line@ == s@.subrange(pos as int, k as int),
            decreases j - k,
        {
            line.push(s[k]);
            proof {
                assert(line@ =~= s@.subrange(pos as int, k as int + 1));
            }
            k = k + 1;
        }
        let ghost r_pre = r@.map_values(|l: Vec<char>| l@);
        r.push(line);
        proof {
            assert(r@.map_values(|l: Vec<char>| l@) =~= r_pre + seq![line@]);
            assert(line@ =~= suffix.subrange(0, j - pos));
        }
        if j < n {
            proof {
                assert(first_nl(suffix, 0) == j - pos);
                assert(spec_lines(suffix) == seq![suffix.subrange(0, j - pos)] + spec_lines(
                    suffix.subrange(j - pos + 1, suffix.len() as int),
                ));
                assert(suffix.subrange(j - pos + 1, suffix.len() as int) =~= s@.subrange(
                    j + 1,
                    n as int,
                ));
                assert(spec_lines(s@) =~= (r_pre + seq![line@]) + spec_lines(
                    s@.subrange(j + 1, n as int),
                ));
            }
            pos = j + 1;
        } else {
            proof {
                assert(first_nl(suffix, 0) == suffix.len());
                assert(spec_lines(suffix) == seq![suffix]);
                assert(line@ =~= suffix);
                assert(spec_lines(s@) =~= r@.map_values(|l: Vec<char>| l@));
            }
            return r;
        }
    }
}

/// Whether `pat` occurs somewhere in `s`.
pub open spec fn spec_contains(s: Seq<char>, pat: Seq<char>) -> bool {
    exists|k: int| is_match_at(s, pat, k)
}

/// Whether `pat` occurs somewhere in `s`, mirroring `spec_contains`.
fn contains_chars(s: &Vec<char>, pat: &Vec<char>) -> (r: bool)
    ensures
        r == spec_contains(s@, pat@),
{
    proof {
        lemma_find_from_first(s@, pat@, 0);
    }
    match find_chars(s, pat) {
        Some(_) => true,
        None => false,
    }
}

/// One search hit: the line's position in the searched text and the line's
/// content with surrounding whitespace removed.
#[derive(Debug)]
pub struct SearchDetail(pub usize, pub String);

impl PartialEq for SearchDetail {
    fn eq(&self, other: &Self) -> (r: bool) {
        self.0 == other.0 && self.1.eq(&other.1)
    }
}

impl vstd::std_specs::cmp::PartialEqSpecImpl for SearchDetail {
    open spec fn obeys_eq_spec() -> bool {
        true
    }

    open spec fn eq_spec(&self, other: &Self) -> bool {
        self.0 == other.0 && self.1@ == other.1@
    }
}

/// The hits of searching `filter` in the given lines, counted from `idx`:
/// for each line holding `filter`, its position and its trimmed content.
pub open spec fn spec_search(filter: Seq<char>, lines: Seq<Seq<char>>, idx: int) -> Seq<
    (int, Seq<char>),
>
    decreases lines.len(),
{
    if lines.len() == 0 {
        Seq::empty()
    } else {
        let rest = spec_search(filter, lines.skip(1), idx + 1);
        if spec_contains(lines[0], filter) {
            seq![(idx, spec_trim(lines[0]))] + rest
        } else {
            rest
        }
    }
}

/// Search the hosts text line by line: every line holding `filter_input`
/// yields its position and its trimmed content, in text order.
pub fn search_hosts(filter_input: &str, hosts_content: &str) -> (r: Vec<SearchDetail>)
    ensures
        r@.map_values(|d: SearchDetail| (d.0 as int, d.1@)) == spec_search(
            filter_input@,
            spec_lines(hosts_content@),
            0,
        ),
        forall|k: int| 0 <= k < r@.len() ==> #[trigger] r@[k].0 < usize::MAX,
{
    let cs = str_to_chars(hosts_content);
    let lines = split_lines(&cs);
    let fv = str_to_chars(filter_input);
    let ghost lviews = lines@.map_values(|l: Vec<char>| l@);
    let mut r: Vec<SearchDetail> = Vec::new();
    proof {
        assert(lviews.skip(0) =~= lviews);
        assert(r@.map_values(|d: SearchDetail| (d.0 as int, d.1@)) + spec_search(
            filter_input@,
            lviews,
            0,
        ) =~= spec_search(filter_input@, lviews, 0));
    }
    let mut i: usize = 0;
    let n = lines.len();
    while i < n
        invariant
            0 <= i <= n,
            n == lines@.len(),
            lviews == lines@.map_values(|l: Vec<char>| l@),
            fv@ == filter_input@,
            spec_search(filter_input@, lviews, 0) == r@.map_values(
                |d: SearchDetail| (d.0 as int, d.1@),
            ) + spec_search(filter_input@, lviews.skip(i as int), i as int),
            forall|k: int| 0 <= k < r@.len() ==> #[trigger] r@[k].0 < n,
        decreases n - i,
    {
        proof {
            assert(lviews.skip(i as int)[0] == lviews[i as int]);
            assert(lviews[i as int] == lines@[i as int]@);
            assert(lviews.skip(i as int).skip(1) =~= lviews.skip(i as int + 1));
        }
        let ghost r_pre = r@.map_values(|d: SearchDetail| (d.0 as int, d.1@));
        if contains_chars(&lines[i], &fv) {
            let t = trim_chars(&lines[i]);
            let detail = SearchDetail(i, chars_to_string(&t));
            r.push(detail);
            proof {
                assert(r@.map_values(|d: SearchDetail| (d.0 as int, d.1@)) =~= r_pre + seq![
                    (i as int, spec_trim(lviews[i as int])),
                ]);
                assert(spec_search(filter_input@, lviews, 0) =~= (r_pre + seq![
                    (i as int, spec_trim(lviews[i as int])),
                ]) + spec_search(filter_input@, lviews.skip(i as int + 1), i as int + 1));
            }
        }
        i = i + 1;
    }
    proof {
        assert(lviews.skip(n as int) =~= Seq::<Seq<char>>::empty());
        assert(spec_search(filter_input@, lviews, 0) =~= r@.map_values(
            |d: SearchDetail| (d.0 as int, d.1@),
        ));
    }
    r
}


/// The mathematical value of one row of the search-result table.
#[verifier::ext_equal]
pub ghost struct FilterResultView {
    pub index: int,
    pub row_content: Seq<char>,
    pub item_id: Seq<char>,
    pub filter_input: Seq<char>,
    pub title: Seq<char>,
    pub row: int,
}

/// One row of the search-result table: a hit of the filter text in one
/// profile's content, with the profile and the 1-based line number it came
/// from and a 1-based running index over the whole table.
#[derive(Debug, Clone)]
pub struct FilterResult {
    index: usize,
    row_content: String,
    item_id: String,
    filter_input: String,
    title: String,
    row: usize,
}

impl View for FilterResult {
    type V = FilterResultView;

    closed spec fn view(&self) -> FilterResultView {
        FilterResultView {
            index: self.index as int,
            row_content: self.row_content@,
            item_id: self.item_id@,
            filter_input: self.filter_input@,
            title: self.title@,
            row: self.row as int,
        }
    }
}

impl FilterResult {
    pub fn index(&self) -> (r: usize)
        ensures
            r as int == self@.index,
    {
        self.index
    }

    pub fn row(&self) -> (r: usize)
        ensures
            r as int == self@.row,
    {
        self.row
    }

    pub fn item_id(&self) -> (r: &String)
        ensures
            r@ == self@.item_id,
    {
        &self.item_id
    }

    pub fn title(&self) -> (r: &String)
        ensures
            r@ == self@.title,
    {
        &self.title
    }

    pub fn row_content(&self) -> (r: &String)
        ensures
            r@ == self@.row_content,
    {
        &self.row_content
    }
}

/// The same row with the running index cleared, for comparing rows apart from
/// their position.
pub open spec fn zero_idx(v: FilterResultView) -> FilterResultView {
    FilterResultView { index: 0, ..v }
}

/// A running index, saturated at the machine limit.
pub open spec fn sat_idx(v: int) -> int {
    if v > usize::MAX {
        usize::MAX as int
    } else {
        v
    }
}

/// The table rows one profile contributes: one row per hit of the filter in
/// its content, with the 1-based line number, before indexing.
pub open spec fn item_results(
    it: ConfigItemView,
    content: Seq<char>,
    filter: Seq<char>,
) -> Seq<FilterResultView> {
    spec_search(filter, spec_lines(content), 0).map_values(
        |pr: (int, Seq<char>)|
            FilterResultView {
                index: 0,
                row: pr.0 + 1,
                item_id: it.id,
                title: it.title,
                row_content: pr.1,
                filter_input: filter,
            },
    )
}

/// The table rows of all profiles at or after position `i`, in list order,
/// the system pseudo-profile skipped.
pub open spec fn all_results(
    items: Seq<ConfigItemView>,
    contents: Seq<Seq<char>>,
    filter: Seq<char>,
    i: int,
) -> Seq<FilterResultView>
    decreases items.len() - i,
{
    if i < 0 || i >= items.len() {
        Seq::empty()
    } else {
        (if items[i].id == "system"@ {
            Seq::empty()
        } else {
            item_results(items[i], contents[i], filter)
        }) + all_results(items, contents, filter, i + 1)
    }
}

/// The search-result table: the rows of the last search, the selected row,
/// and the first visible row.
pub struct SearchResult {
    list: Vec<FilterResult>,
    selected_index: usize,
    viewport_start: usize,
}

impl SearchResult {
    /// The rows of the table, in display order.
    pub closed spec fn results(&self) -> Seq<FilterResultView> {
        self.list@.map_values(|f: FilterResult| f@)
    }

    /// The position of the selected row.
    pub closed spec fn sel(&self) -> int {
        self.selected_index as int
    }

    /// The position of the first visible row.
    pub closed spec fn viewport(&self) -> int {
        self.viewport_start as int
    }

    pub fn new() -> (r: Self)
        ensures
            r.results().len() == 0,
            r.sel() == 0,
            r.viewport() == 0,
    {
        SearchResult { list: Vec::new(), selected_index: 0, viewport_start: 0 }
    }

    /// The rows of the table, for display.
    pub fn rows(&self) -> (r: &Vec<FilterResult>)
        ensures
            r@.map_values(|f: FilterResult| f@) == self.results(),
    {
        &self.list
    }

    /// Drop every row and reset the cursor and the viewport.
    pub fn clear(&mut self)
        ensures
            final(self).results().len() == 0,
            final(self).sel() == 0,
            final(self).viewport() == 0,
    {
        self.selected_index = 0;
        self.viewport_start = 0;
        self.list.clear();
    }

    /// Rebuild the table for a filter text: every hit of the filter in every
    /// profile's content, in list order, the system pseudo-profile skipped;
    /// the rows carry a 1-based running index (saturated at the machine
    /// limit) and the cursor and viewport reset. `contents[i]` is the content
    /// of the profile at position `i`.
    pub fn update(
        &mut self,
        all_hosts_item_list: &Vec<ConfigItem>,
        contents: &Vec<String>,
        filter_input: String,
    )
        requires
            contents@.len() == all_hosts_item_list@.len(),
        ensures
            final(self).sel() == 0,
            final(self).viewport() == 0,
            ({
                let flat = all_results(
                    items_view(all_hosts_item_list@),
                    contents@.map_values(|s: String| s@),
                    filter_input@,
                    0,
                );
                &&& final(self).results().len() == flat.len()
                &&& forall|p: int|
                    0 <= p < flat.len() ==> final(self).results()[p] == (FilterResultView {
                        index: sat_idx(p + 1),
                        ..flat[p]
                    })
            }),
    {
        let ghost itemsg = items_view(all_hosts_item_list@);
        let ghost cg = contents@.map_values(|s: String| s@);
        let ghost f = filter_input@;
        let sys = String::from_str("system");
        let mut list: Vec<FilterResult> = Vec::new();
        let n = all_hosts_item_list.len();
        let mut i: usize = 0;
        proof {
            assert(list@.map_values(|fr: FilterResult| zero_idx(fr@)) + all_results(itemsg, cg, f, 0)
                =~= all_results(itemsg, cg, f, 0));
        }
        while i < n
            invariant
                0 <= i <= n,
                n == all_hosts_item_list@.len(),
                itemsg == items_view(all_hosts_item_list@),
                cg == contents@.map_values(|s: String| s@),
                cg.len() == itemsg.len(),
                contents@.len() == itemsg.len(),
                f == filter_input@,
                sys@ == "system"@,
                all_results(itemsg, cg, f, 0) == list@.map_values(
                    |fr: FilterResult| zero_idx(fr@),
                ) + all_results(itemsg, cg, f, i as int),
                forall|p: int|
                    0 <= p < list@.len() ==> #[trigger] list@[p]@.index == sat_idx(p + 1),
            decreases n - i,
        {
            proof {
                assert(itemsg[i as int] == all_hosts_item_list@[i as int]@);
                assert(cg[i as int] == contents@[i as int]@);
            }
            let item = &all_hosts_item_list[i];
            if !item.id().eq(&sys) {
                let details = search_hosts(filter_input.as_str(), contents[i].as_str());
                let ghost block = item_results(itemsg[i as int], cg[i as int], f);
                let ghost base = list@.map_values(|fr: FilterResult| zero_idx(fr@));
                let ghost hits = spec_search(f, spec_lines(cg[i as int]), 0);
                let m = details.len();
                let mut k: usize = 0;
                proof {
                    assert(base + block.subrange(0, 0) =~= base);
                }
                while k < m
                    invariant
                        0 <= k <= m,
                        m == details@.len(),
                        itemsg[i as int] == all_hosts_item_list@[i as int]@,
                        item@ == itemsg[i as int],
                        0 <= i < itemsg.len(),
                        f == filter_input@,
                        hits == spec_search(f, spec_lines(cg[i as int]), 0),
                        details@.map_values(|d: SearchDetail| (d.0 as int, d.1@)) == hits,
                        forall|q: int|
                            0 <= q < details@.len() ==> #[trigger] details@[q].0 < usize::MAX,
                        block == item_results(itemsg[i as int], cg[i as int], f),
                        block.len() == hits.len(),
                        list@.map_values(|fr: FilterResult| zero_idx(fr@)) == base + block.subrange(
                            0,
                            k as int,
                        ),
                        forall|p: int|
                            0 <= p < list@.len() ==> #[trigger] list@[p]@.index == sat_idx(p + 1),
                    decreases m - k,
                {
                    let cur = list.len();
                    let index: usize = if cur == usize::MAX {
                        usize::MAX
                    } else {
                        cur + 1
                    };
                    let d = &details[k];
                    let fr = FilterResult {
                        index,
                        row: d.0 + 1,
                        item_id: item.id().clone(),
                        row_content: d.1.clone(),
                        title: item.title().clone(),
                        filter_input: filter_input.clone(),
                    };
                    let ghost pre = list@;
                    proof {
                        assert(*d == details@[k as int]);
                        assert(details@.map_values(|dd: SearchDetail| (dd.0 as int, dd.1@))[
                            k as int] == hits[k as int]);
                        assert((d.0 as int, d.1@) == hits[k as int]);
                        assert(d.0 as int == hits[k as int].0);
                        assert(d.1@ == hits[k as int].1);
                        assert(fr@.row == hits[k as int].0 + 1);
                        assert(fr@.row_content == hits[k as int].1);
                        assert(fr@.item_id == itemsg[i as int].id);
                        assert(fr@.title == itemsg[i as int].title);
                        assert(fr@.filter_input == f);
                    }
                    list.push(fr);
                    proof {
                        assert(block[k as int] == FilterResultView {
                            index: 0,
                            row: hits[k as int].0 + 1,
                            item_id: itemsg[i as int].id,
                            title: itemsg[i as int].title,
                            row_content: hits[k as int].1,
                            filter_input: f,
                        });
                        assert(zero_idx(list@.last()@) =~= block[k as int]);
                        assert(list@.map_values(|frr: FilterResult| zero_idx(frr@)) =~= pre
                            .map_values(|frr: FilterResult| zero_idx(frr@)) + seq![
                            block[k as int],
                        ]);
                        assert((base + block.subrange(0, k as int)) + seq![block[k as int]] =~= base
                            + block.subrange(0, k as int + 1));
                    }
                    k = k + 1;
                }
                proof {
                    assert(block.subrange(0, block.len() as int) =~= block);
                    assert(all_results(itemsg, cg, f, i as int) == block + all_results(
                        itemsg,
                        cg,
                        f,
                        i as int + 1,
                    ));
                    assert(base + block =~= list@.map_values(|fr: FilterResult| zero_idx(fr@)));
                    assert((base + block) + all_results(itemsg, cg, f, i as int + 1) =~= base + (
                    block + all_results(itemsg, cg, f, i as int + 1)));
                }
            } else {
                proof {
                    assert(all_results(itemsg, cg, f, i as int) =~= Seq::<
                        FilterResultView,
                    >::empty() + all_results(itemsg, cg, f, i as int + 1));
                    assert(Seq::<FilterResultView>::empty() + all_results(
                        itemsg,
                        cg,
                        f,
                        i as int + 1,
                    ) =~= all_results(itemsg, cg, f, i as int + 1));
                }
            }
            i = i + 1;
        }
        self.list = list;
        self.selected_index = 0;
        self.viewport_start = 0;
        proof {
            assert(all_results(itemsg, cg, f, n as int) =~= Seq::<FilterResultView>::empty());
            assert(self.results() =~= self.list@.map_values(|fr: FilterResult| fr@));
            let flat = all_results(itemsg, cg, f, 0);
            assert(flat =~= self.list@.map_values(|fr: FilterResult| zero_idx(fr@)));
            assert forall|p: int| 0 <= p < flat.len() implies self.results()[p]
                == (FilterResultView { index: sat_idx(p + 1), ..flat[p] }) by {
                assert(self.results()[p] == self.list@[p]@);
                assert(flat[p] == zero_idx(self.list@[p]@));
                assert(self.list@[p]@.index == sat_idx(p + 1));
                assert(self.results()[p] =~= (FilterResultView { index: sat_idx(p + 1), ..flat[p] }));
            }
        }
    }
}

} // verus!
