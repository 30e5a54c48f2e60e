//! The subscription index: per table, the selects other nodes have
//! registered, each with the address to notify. On an insert it yields
//! the addresses whose select matches some inserted row, each address at
//! most once, and counts the entries whose filter failed to evaluate.
use crate::db::convert_row_to_hashmap;
use crate::db::spec_row_of;
use crate::expression::ExpressionEvaluationError;
use crate::insert_query::InsertQuery;
use crate::row::Row;
use crate::select_query::spec_select_matches;
use crate::select_query::SelectQuery;
use crate::string_map::StringMap;
use crate::values::TypeValue;
use vstd::prelude::*;
use vstd::string::StringExecFns;

verus! {

/// Whether an entry's select accepts a row.
pub open spec fn spec_entry_matches(
    entry: (SelectQuery, String),
    row: Map<Seq<char>, TypeValue>,
) -> bool {
    spec_select_matches(entry.0, row) == Ok::<bool, ExpressionEvaluationError>(true)
}

/// Whether an entry's select fails to evaluate against a row.
pub open spec fn spec_entry_errs(
    entry: (SelectQuery, String),
    row: Map<Seq<char>, TypeValue>,
) -> bool {
    spec_select_matches(entry.0, row) is Err
}

/// Whether an entry's select accepts at least one row of an insert.
pub open spec fn spec_entry_matches_insert(entry: (SelectQuery, String), iq: InsertQuery) -> bool {
    exists|i: int|
        0 <= i < iq.rows@.len() && spec_entry_matches(
            entry,
            #[trigger] spec_row_of(iq.columns@, iq.rows@[i]@),
        )
}

/// Whether an entry's select fails to evaluate on at least one row of an
/// insert.
pub open spec fn spec_entry_errs_insert(entry: (SelectQuery, String), iq: InsertQuery) -> bool {
    exists|i: int|
        0 <= i < iq.rows@.len() && spec_entry_errs(
            entry,
            #[trigger] spec_row_of(iq.columns@, iq.rows@[i]@),
        )
}

/// Whether one of the first `j` entries carries this address and accepts
/// some row of the insert.
pub open spec fn spec_some_entry_matches(
    entries: Seq<(SelectQuery, String)>,
    j: int,
    iq: InsertQuery,
    a: Seq<char>,
) -> bool {
    exists|e: int|
        0 <= e < j && (#[trigger] entries[e]).1@ == a && spec_entry_matches_insert(entries[e], iq)
}

/// Whether the address list holds this address.
pub open spec fn spec_addr_in(addrs: Seq<String>, a: Seq<char>) -> bool {
    exists|o: int| 0 <= o < addrs.len() && (#[trigger] addrs[o])@ == a
}

/// The characters of each address, in order.
pub open spec fn addr_views(addrs: Seq<String>) -> Seq<Seq<char>> {
    addrs.map_values(|a: String| a@)
}

/// The address list the scan over the first `n` entries produces: each
/// matching entry's address, in entry order, kept only at its first
/// occurrence.
pub open spec fn spec_match_addrs(
    entries: Seq<(SelectQuery, String)>,
    iq: InsertQuery,
    n: int,
) -> Seq<Seq<char>>
    decreases n,
{
    if n <= 0 {
        Seq::empty()
    } else {
        let prefix = spec_match_addrs(entries, iq, n - 1);
        if spec_entry_matches_insert(entries[n - 1], iq) && !prefix.contains(entries[n - 1].1@) {
            prefix.push(entries[n - 1].1@)
        } else {
            prefix
        }
    }
}

proof fn lemma_addr_views_push(addrs: Seq<String>, x: String)
    ensures
        addr_views(addrs.push(x)) == addr_views(addrs).push(x@),
{
    assert(addr_views(addrs.push(x)) =~= addr_views(addrs).push(x@));
}

proof fn lemma_addr_views_contains(addrs: Seq<String>, a: Seq<char>)
    ensures
        addr_views(addrs).contains(a) == spec_addr_in(addrs, a),
{
    if addr_views(addrs).contains(a) {
        let o = choose|o: int| 0 <= o < addr_views(addrs).len() && addr_views(addrs)[o] == a;
        assert(addrs[o]@ == a);
        assert(spec_addr_in(addrs, a));
    }
    if spec_addr_in(addrs, a) {
        let o = choose|o: int| 0 <= o < addrs.len() && (#[trigger] addrs[o])@ == a;
        assert(addr_views(addrs)[o] == a);
    }
}

/// How many of the first `n` entries fail to evaluate on some row of the
/// insert.
pub open spec fn spec_count_err_entries(
    entries: Seq<(SelectQuery, String)>,
    iq: InsertQuery,
    n: int,
) -> int
    decreases n,
{
    if n <= 0 {
        0
    } else {
        spec_count_err_entries(entries, iq, n - 1) + if spec_entry_errs_insert(
            entries[n - 1],
            iq,
        ) {
            1int
        } else {
            0int
        }
    }
}

/// What matching an insert against the index yields: the addresses to
/// notify, and how many registered entries could not be evaluated.
pub struct MatchOutcome {
    pub addresses: Vec<String>,
    pub skipped: usize,
}

/// The per-table registry of subscriptions.
pub struct SelectIndex {
    selects: StringMap<Vec<(SelectQuery, String)>>,
}

impl View for SelectIndex {
    type V = Map<Seq<char>, Vec<(SelectQuery, String)>>;

    closed spec fn view(&self) -> Map<Seq<char>, Vec<(SelectQuery, String)>> {
        self.selects@
    }
}

/// The entries registered for a table; none when the table is unknown.
pub open spec fn spec_entries_for(index: SelectIndex, table: Seq<char>) -> Seq<
    (SelectQuery, String),
> {
    if index@.contains_key(table) {
        index@[table]@
    } else {
        Seq::empty()
    }
}

/// Whether a vector holds a string with the given characters.
fn vec_contains_string(v: &Vec<String>, s: &String) -> (r: bool)
    ensures
        r == spec_addr_in(v@, s@),
{
    let n = v.len();
    let mut i: usize = 0;
    while i < n
        invariant
            i <= n,
            n == v@.len(),
            forall|j: int| 0 <= j < i ==> (#[trigger] v@[j])@ != s@,
        decreases n - i,
    {
        if v[i] == *s {
            assert(spec_addr_in(v@, s@));
            return true;
        }
        i = i + 1;
    }
    false
}

impl SelectIndex {
    pub fn new() -> (r: SelectIndex)
        ensures
            r@ == Map::<Seq<char>, Vec<(SelectQuery, String)>>::empty(),
    {
        SelectIndex { selects: StringMap::new() }
    }

    /// Registers a select under its source table, after every entry
    /// already registered there; no other table's entries change.
    pub fn insert_select(&mut self, addr: &str, select_query: SelectQuery)
        ensures
            ({
                let k = select_query.from@;
                let olde = spec_entries_for(*old(self), k);
                &&& final(self)@.contains_key(k)
                &&& spec_entries_for(*final(self), k).len() == olde.len() + 1
                &&& (forall|i: int|
                    0 <= i < olde.len() ==> spec_entries_for(*final(self), k)[i] == olde[i])
                &&& spec_entries_for(*final(self), k).last().0 == select_query
                &&& spec_entries_for(*final(self), k).last().1@ == addr@
                &&& (forall|k2: Seq<char>|
                    k2 != k && #[trigger] old(self)@.contains_key(k2)
                        ==> final(self)@.contains_key(k2) && final(self)@[k2] == old(self)@[k2])
                &&& (forall|k2: Seq<char>|
                    #[trigger] final(self)@.contains_key(k2)
                        ==> k2 == k || old(self)@.contains_key(k2))
            }),
    {
        let key = select_query.from.clone();
        let mut entries: Vec<(SelectQuery, String)> = match self.selects.remove_entry(&key) {
            Some(es) => es,
            None => Vec::new(),
        };
        entries.push((select_query, String::from_str(addr)));
        self.selects.set(key, entries);
    }

    /// The addresses subscribed to rows of this insert: every address
    /// registered under the insert's table whose select accepts at least
    /// one inserted row, each at most once however many rows or entries
    /// matched it. An entry whose filter fails to evaluate matches
    /// nothing and is counted in `skipped`; with nothing registered for
    /// the table the result is empty.
    pub fn get_addr_for_insert(&self, insert_query: InsertQuery) -> (outcome: MatchOutcome)
        ensures
            ({
                let entries = spec_entries_for(*self, insert_query.table_name@);
                &&& (forall|x: int, y: int|
                    0 <= x < y < outcome.addresses@.len() ==> (#[trigger] outcome.addresses@[x])@
                        != (#[trigger] outcome.addresses@[y])@)
                &&& (forall|o: int|
                    0 <= o < outcome.addresses@.len() ==> spec_some_entry_matches(
                        entries,
                        entries.len() as int,
                        insert_query,
                        (#[trigger] outcome.addresses@[o])@,
                    ))
                &&& (forall|e: int|
                    0 <= e < entries.len() && spec_entry_matches_insert(
                        #[trigger] entries[e],
                        insert_query,
                    ) ==> spec_addr_in(outcome.addresses@, entries[e].1@))
                &&& addr_views(outcome.addresses@) == spec_match_addrs(
                    entries,
                    insert_query,
                    entries.len() as int,
                )
                &&& outcome.skipped == spec_count_err_entries(
                    entries,
                    insert_query,
                    entries.len() as int,
                )
                &&& (!self@.contains_key(insert_query.table_name@) ==> outcome.addresses@.len()
                    == 0)
            }),
    {
        let mut addresses: Vec<String> = Vec::new();
        let mut skipped: usize = 0;
        let entries_opt = self.selects.get(&insert_query.table_name);
        match entries_opt {
            None => {
                proof {
                    let entries = Seq::<(SelectQuery, String)>::empty();
                    assert(spec_count_err_entries(entries, insert_query, 0) == 0);
                    assert(addr_views(addresses@) =~= spec_match_addrs(entries, insert_query, 0));
                }
                MatchOutcome { addresses, skipped }
            },
            Some(entries) => {
                let rows = build_rows(&insert_query);
                let n = entries.len();
                let mut j: usize = 0;
                while j < n
                    invariant
                        j <= n,
                        n == entries@.len(),
                        rows@.len() == insert_query.rows@.len(),
                        forall|x: int|
                            0 <= x < rows@.len() ==> (#[trigger] rows@[x])@ == spec_row_of(
                                insert_query.columns@,
                                insert_query.rows@[x]@,
                            ),
                        skipped == spec_count_err_entries(entries@, insert_query, j as int),
                        skipped <= j,
                        addr_views(addresses@) == spec_match_addrs(entries@, insert_query, j as int),
                        forall|x: int, y: int|
                            0 <= x < y < addresses@.len() ==> (#[trigger] addresses@[x])@
                                != (#[trigger] addresses@[y])@,
                        forall|o: int|
                            0 <= o < addresses@.len() ==> spec_some_entry_matches(
                                entries@,
                                j as int,
                                insert_query,
                                (#[trigger] addresses@[o])@,
                            ),
                        forall|e: int|
                            0 <= e < j && spec_entry_matches_insert(
                                #[trigger] entries@[e],
                                insert_query,
                            ) ==> spec_addr_in(addresses@, entries@[e].1@),
                    decreases n - j,
                {
                    let entry = &entries[j];
                    let (matched, erred) = scan_entry(&entry.0, &rows);
                    proof {
                        lemma_scan_bridge(entries@[j as int], rows@, insert_query);
                    }
                    let ghost pre_addrs = addresses@;
                    if matched {
                        if !vec_contains_string(&addresses, &entry.1) {
                            addresses.push(entry.1.clone());
                            proof {
                                assert(addresses@[pre_addrs.len() as int]@ == entries@[j
                                    as int].1@);
                                assert(spec_addr_in(addresses@, entries@[j as int].1@));
                            }
                        }
                    }
                    proof {
                        lemma_addr_views_contains(pre_addrs, entries@[j as int].1@);
                        if addresses@.len() == pre_addrs.len() + 1 {
                            assert(addresses@ =~= pre_addrs.push(addresses@.last()));
                            lemma_addr_views_push(pre_addrs, addresses@.last());
                            assert(addresses@.last()@ == entries@[j as int].1@);
                        }
                        assert(addr_views(addresses@) == spec_match_addrs(
                            entries@,
                            insert_query,
                            j + 1,
                        ));
                        assert forall|e: int|
                            0 <= e < j + 1 && spec_entry_matches_insert(
                                #[trigger] entries@[e],
                                insert_query,
                            ) implies spec_addr_in(addresses@, entries@[e].1@) by {
                            if e < j {
                                let o = choose|o: int|
                                    0 <= o < pre_addrs.len() && (#[trigger] pre_addrs[o])@
                                        == entries@[e].1@;
                                assert(addresses@[o]@ == entries@[e].1@);
                                assert(spec_addr_in(addresses@, entries@[e].1@));
                            }
                        }
                        assert forall|o: int|
                            0 <= o < addresses@.len() implies spec_some_entry_matches(
                            entries@,
                            j + 1,
                            insert_query,
                            (#[trigger] addresses@[o])@,
                        ) by {
                            if o < pre_addrs.len() {
                                assert(pre_addrs[o] == addresses@[o]);
                                let e0 = choose|e: int|
                                    0 <= e < j && (#[trigger] entries@[e]).1@ == pre_addrs[o]@
                                        && spec_entry_matches_insert(entries@[e], insert_query);
                                assert((entries@[e0]).1@ == addresses@[o]@
                                    && spec_entry_matches_insert(entries@[e0], insert_query));
                            } else {
                                assert(addresses@[o]@ == entries@[j as int].1@);
                                assert((entries@[j as int]).1@ == addresses@[o]@
                                    && spec_entry_matches_insert(
                                    entries@[j as int],
                                    insert_query,
                                ));
                            }
                        }
                    }
                    if erred {
                        skipped = skipped + 1;
                    }
                    j = j + 1;
                }
                MatchOutcome { addresses, skipped }
            },
        }
    }
}

/// Builds the row each row list of an insert denotes, in order.
fn build_rows(insert_query: &InsertQuery) -> (rows: Vec<Row>)
    ensures
        rows@.len() == insert_query.rows@.len(),
        forall|j: int|
            0 <= j < rows@.len() ==> (#[trigger] rows@[j])@ == spec_row_of(
                insert_query.columns@,
                insert_query.rows@[j]@,
            ),
{
    let nrows = insert_query.rows.len();
    let mut rows: Vec<Row> = Vec::new();
    let mut ri: usize = 0;
    while ri < nrows
        invariant
            ri <= nrows,
            nrows == insert_query.rows@.len(),
            rows@.len() == ri,
            forall|j: int|
                0 <= j < ri ==> (#[trigger] rows@[j])@ == spec_row_of(
                    insert_query.columns@,
                    insert_query.rows@[j]@,
                ),
        decreases nrows - ri,
    {
        rows.push(convert_row_to_hashmap(&insert_query.columns, &insert_query.rows[ri]));
        ri = ri + 1;
    }
    rows
}

/// Scans one select over the built rows: whether it accepts some row,
/// and whether it fails to evaluate on some row.
fn scan_entry(q: &SelectQuery, rows: &Vec<Row>) -> (r: (bool, bool))
    ensures
        r.0 == exists|i: int|
            0 <= i < rows@.len() && spec_select_matches(*q, (#[trigger] rows@[i])@) == Ok::<
                bool,
                ExpressionEvaluationError,
            >(true),
        r.1 == exists|i: int|
            0 <= i < rows@.len() && spec_select_matches(*q, (#[trigger] rows@[i])@) is Err,
{
    let mut matched = false;
    let mut erred = false;
    let n = rows.len();
    let mut k: usize = 0;
    while k < n
        invariant
            k <= n,
            n == rows@.len(),
            matched == exists|i: int|
                0 <= i < k && spec_select_matches(*q, (#[trigger] rows@[i])@) == Ok::<
                    bool,
                    ExpressionEvaluationError,
                >(true),
            erred == exists|i: int|
                0 <= i < k && spec_select_matches(*q, (#[trigger] rows@[i])@) is Err,
        decreases n - k,
    {
        match q.matches_row(&rows[k]) {
            Ok(true) => {
                matched = true;
            },
            Ok(false) => {},
            Err(_) => {
                erred = true;
            },
        }
        k = k + 1;
    }
    (matched, erred)
}

/// Ties a scan over built rows to the insert it came from: accepting or
/// failing on some built row is accepting or failing on some row of the
/// insert.
proof fn lemma_scan_bridge(entry: (SelectQuery, String), rows: Seq<Row>, iq: InsertQuery)
    requires
        rows.len() == iq.rows@.len(),
        forall|i: int|
            0 <= i < rows.len() ==> (#[trigger] rows[i])@ == spec_row_of(
                iq.columns@,
                iq.rows@[i]@,
            ),
    ensures
        (exists|i: int|
            0 <= i < rows.len() && spec_select_matches(entry.0, (#[trigger] rows[i])@) == Ok::<
                bool,
                ExpressionEvaluationError,
            >(true)) == spec_entry_matches_insert(entry, iq),
        (exists|i: int|
            0 <= i < rows.len() && spec_select_matches(entry.0, (#[trigger] rows[i])@) is Err)
            == spec_entry_errs_insert(entry, iq),
{
    if exists|i: int|
        0 <= i < rows.len() && spec_select_matches(entry.0, (#[trigger] rows[i])@) == Ok::<
            bool,
            ExpressionEvaluationError,
        >(true) {
        let i = choose|i: int|
            0 <= i < rows.len() && spec_select_matches(entry.0, (#[trigger] rows[i])@) == Ok::<
                bool,
                ExpressionEvaluationError,
            >(true);
        assert(spec_entry_matches(entry, spec_row_of(iq.columns@, iq.rows@[i]@)));
    }
    if spec_entry_matches_insert(entry, iq) {
        let i = choose|i: int|
            0 <= i < iq.rows@.len() && spec_entry_matches(
                entry,
                #[trigger] spec_row_of(iq.columns@, iq.rows@[i]@),
            );
        assert(spec_select_matches(entry.0, rows[i]@) == Ok::<bool, ExpressionEvaluationError>(
            true,
        ));
    }
    if exists|i: int|
        0 <= i < rows.len() && spec_select_matches(entry.0, (#[trigger] rows[i])@) is Err {
        let i = choose|i: int|
            0 <= i < rows.len() && spec_select_matches(entry.0, (#[trigger] rows[i])@) is Err;
        assert(spec_entry_errs(entry, spec_row_of(iq.columns@, iq.rows@[i]@)));
    }
    if spec_entry_errs_insert(entry, iq) {
        let i = choose|i: int|
            0 <= i < iq.rows@.len() && spec_entry_errs(
                entry,
                #[trigger] spec_row_of(iq.columns@, iq.rows@[i]@),
            );
        assert(spec_select_matches(entry.0, rows[i]@) is Err);
    }
}

} // verus!
