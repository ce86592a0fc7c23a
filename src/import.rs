use vstd::prelude::*;
use crate::interrupt::{InterruptHandle, InterruptScope};

verus! {

/// The oldest legacy history schema that can be imported.
pub const MIN_FOREIGN_DB_VERSION: i64 = 34;

/// A page of the legacy history table.
pub struct ForeignHistoryRow {
    pub guid: String,
    pub url: Option<String>,
    pub title: Option<String>,
}

/// A visit of the legacy visits table, pointing at its page by guid.
pub struct ForeignVisit {
    pub history_guid: String,
    pub date: i64,
    pub visit_type: i64,
    pub is_local: bool,
}

/// What the import reads from the attached legacy database.
pub struct ForeignDatabase {
    pub user_version: i64,
    pub history: Vec<ForeignHistoryRow>,
    pub visits: Vec<ForeignVisit>,
}

/// A legacy page whose URL normalised, keyed by its legacy guid.
pub struct StagedRow {
    pub guid: String,
    pub url: String,
    pub title: Option<String>,
}

/// A canonical page of the store; its id is its position.
pub struct Place {
    pub url: String,
    pub title: Option<String>,
}

/// A visit of the store, pointing at its page by id.
#[derive(Clone, Copy, Debug, PartialEq, Eq, Structural)]
pub struct Visit {
    pub place_id: usize,
    pub date: i64,
    pub visit_type: i64,
    pub is_local: bool,
}

/// The destination store's pages and visits.
pub struct Store {
    pub places: Vec<Place>,
    pub visits: Vec<Visit>,
}

/// How an import went: how many legacy visits there were and how many landed.
#[derive(Clone, Copy, Debug, PartialEq, Eq, Structural)]
pub struct HistoryMigrationResult {
    pub num_total: u64,
    pub num_succeeded: u64,
    pub num_failed: u64,
    pub total_duration: u64,
}

/// Why an import stopped before it could report a result.
#[derive(Clone, Copy, Debug, PartialEq, Eq, Structural)]
pub enum ImportError {
    UnsupportedDatabaseVersion(i64),
    Interrupted,
}

pub struct StagedView {
    pub guid: Seq<char>,
    pub url: Seq<char>,
    pub title: Option<Seq<char>>,
}

pub struct PlaceView {
    pub url: Seq<char>,
    pub title: Option<Seq<char>>,
}

/// The normalised form of a URL, or `None` where it does not parse.
pub uninterp spec fn normalized_url(s: Seq<char>) -> Option<Seq<char>>;

/// Relies on url::Url::parse and its serialisation: a URL that parses is
/// returned in canonical form, one that does not gives `None`.
#[verifier::external_body]
fn validate_url(s: &str) -> (r: Option<String>)
    ensures
        r is None <==> normalized_url(s@) is None,
        r is Some ==> normalized_url(s@) == Some(r->0@),
{
    url::Url::parse(s).ok().map(String::from)
}

pub open spec fn opt_view(o: Option<String>) -> Option<Seq<char>> {
    match o {
        Some(s) => Some(s@),
        None => None,
    }
}

pub open spec fn staged_view(s: StagedRow) -> StagedView {
    StagedView { guid: s.guid@, url: s.url@, title: opt_view(s.title) }
}

pub open spec fn place_view(p: Place) -> PlaceView {
    PlaceView { url: p.url@, title: opt_view(p.title) }
}

pub open spec fn staged_views(s: Seq<StagedRow>) -> Seq<StagedView> {
    s.map_values(|r: StagedRow| staged_view(r))
}

pub open spec fn place_views(s: Seq<Place>) -> Seq<PlaceView> {
    s.map_values(|p: Place| place_view(p))
}

pub open spec fn opt_views(s: Seq<Option<String>>) -> Seq<Option<Seq<char>>> {
    s.map_values(|o: Option<String>| opt_view(o))
}

/// The normalised URL of a legacy page, `None` where it has none or it does not parse.
pub open spec fn row_url(row: ForeignHistoryRow) -> Option<Seq<char>> {
    match row.url {
        Some(u) => normalized_url(u@),
        None => None,
    }
}

pub open spec fn normalized_urls(rows: Seq<ForeignHistoryRow>) -> Seq<Option<Seq<char>>> {
    rows.map_values(|r: ForeignHistoryRow| row_url(r))
}

/// The first position at or after `start` of a staged row with guid `g`.
pub open spec fn guid_index_from(staged: Seq<StagedView>, g: Seq<char>, start: int) -> Option<int>
    decreases staged.len() - start,
{
    if start < 0 || start >= staged.len() {
        None
    } else if staged[start].guid == g {
        Some(start)
    } else {
        guid_index_from(staged, g, start + 1)
    }
}

/// The first position at or after `start` of a page with URL `u`.
pub open spec fn place_index_from(places: Seq<PlaceView>, u: Seq<char>, start: int) -> Option<int>
    decreases places.len() - start,
{
    if start < 0 || start >= places.len() {
        None
    } else if places[start].url == u {
        Some(start)
    } else {
        place_index_from(places, u, start + 1)
    }
}

/// The staging table: each legacy page whose URL normalised (`urls` gives the
/// normalised URL of each), the first page of each guid winning.
pub open spec fn stage_from(rows: Seq<ForeignHistoryRow>, urls: Seq<Option<Seq<char>>>) -> Seq<
    StagedView,
>
    decreases rows.len(),
{
    if rows.len() == 0 {
        Seq::empty()
    } else {
        let prev = stage_from(rows.drop_last(), urls);
        let row = rows.last();
        match urls[rows.len() - 1] {
            Some(u) => if guid_index_from(prev, row.guid@, 0) is None {
                prev.push(StagedView { guid: row.guid@, url: u, title: opt_view(row.title) })
            } else {
                prev
            },
            None => prev,
        }
    }
}

/// The pages after adding one for each staged URL that has none yet.
pub open spec fn fill_places_spec(places: Seq<PlaceView>, staged: Seq<StagedView>) -> Seq<
    PlaceView,
>
    decreases staged.len(),
{
    if staged.len() == 0 {
        places
    } else {
        let prev = fill_places_spec(places, staged.drop_last());
        let s = staged.last();
        if place_index_from(prev, s.url, 0) is None {
            prev.push(PlaceView { url: s.url, title: s.title })
        } else {
            prev
        }
    }
}

/// The page that a legacy visit to guid `g` lands on, if any.
pub open spec fn visit_target(staged: Seq<StagedView>, places: Seq<PlaceView>, g: Seq<char>) -> Option<
    int,
> {
    match guid_index_from(staged, g, 0) {
        Some(i) => place_index_from(places, staged[i].url, 0),
        None => None,
    }
}

/// The visits after adding one for each legacy visit whose page resolves.
pub open spec fn insert_visits_spec(
    visits: Seq<Visit>,
    foreign: Seq<ForeignVisit>,
    staged: Seq<StagedView>,
    places: Seq<PlaceView>,
) -> Seq<Visit>
    decreases foreign.len(),
{
    if foreign.len() == 0 {
        visits
    } else {
        let prev = insert_visits_spec(visits, foreign.drop_last(), staged, places);
        let v = foreign.last();
        match visit_target(staged, places, v.history_guid@) {
            Some(p) => prev.push(
                Visit { place_id: p as usize, date: v.date, visit_type: v.visit_type, is_local: v.is_local },
            ),
            None => prev,
        }
    }
}

proof fn lemma_guid_index_found(staged: Seq<StagedView>, g: Seq<char>, start: int)
    requires
        0 <= start,
    ensures
        match guid_index_from(staged, g, start) {
            Some(i) => start <= i < staged.len() && staged[i].guid == g,
            None => forall|j: int| start <= j < staged.len() ==> staged[j].guid != g,
        },
    decreases staged.len() - start,
{
    if 0 <= start < staged.len() && staged[start].guid != g {
        lemma_guid_index_found(staged, g, start + 1);
    }
}

proof fn lemma_place_index_found(places: Seq<PlaceView>, u: Seq<char>, start: int)
    requires
        0 <= start,
    ensures
        match place_index_from(places, u, start) {
            Some(i) => start <= i < places.len() && places[i].url == u,
            None => forall|j: int| start <= j < places.len() ==> places[j].url != u,
        },
    decreases places.len() - start,
{
    if 0 <= start < places.len() && places[start].url != u {
        lemma_place_index_found(places, u, start + 1);
    }
}

fn clone_opt(o: &Option<String>) -> (r: Option<String>)
    ensures
        opt_view(r) == opt_view(*o),
{
    match o {
        Some(s) => Some(s.clone()),
        None => None,
    }
}

fn find_guid(staged: &Vec<StagedRow>, g: &String) -> (r: Option<usize>)
    ensures
        match r {
            Some(i) => guid_index_from(staged_views(staged@), g@, 0) == Some(i as int),
            None => guid_index_from(staged_views(staged@), g@, 0) is None,
        },
{
    let ghost sv = staged_views(staged@);
    let mut i: usize = 0;
    while i < staged.len()
        invariant
            i <= staged.len(),
            sv == staged_views(staged@),
            guid_index_from(sv, g@, 0) == guid_index_from(sv, g@, i as int),
        decreases staged.len() - i,
    {
        if staged[i].guid == *g {
            return Some(i);
        }
        i = i + 1;
    }
    None
}

fn find_place(places: &Vec<Place>, u: &String) -> (r: Option<usize>)
    ensures
        match r {
            Some(i) => place_index_from(place_views(places@), u@, 0) == Some(i as int),
            None => place_index_from(place_views(places@), u@, 0) is None,
        },
{
    let ghost pv = place_views(places@);
    let mut i: usize = 0;
    while i < places.len()
        invariant
            i <= places.len(),
            pv == place_views(places@),
            place_index_from(pv, u@, 0) == place_index_from(pv, u@, i as int),
        decreases places.len() - i,
    {
        if places[i].url == *u {
            return Some(i);
        }
        i = i + 1;
    }
    None
}

/// Builds the staging table from the legacy pages, given the normalised URL of
/// each page (`None` where it has none or it does not parse).
pub fn stage_normalized(rows: &Vec<ForeignHistoryRow>, urls: &Vec<Option<String>>) -> (r: Vec<
    StagedRow,
>)
    requires
        urls.len() == rows.len(),
    ensures
        staged_views(r@) == stage_from(rows@, opt_views(urls@)),
{
    let ghost uv = opt_views(urls@);
    let mut out: Vec<StagedRow> = Vec::new();
    let mut i: usize = 0;
    while i < rows.len()
        invariant
            i <= rows.len(),
            urls.len() == rows.len(),
            uv == opt_views(urls@),
            staged_views(out@) == stage_from(rows@.take(i as int), uv),
        decreases rows.len() - i,
    {
        assert(rows@.take(i as int + 1).drop_last() =~= rows@.take(i as int));
        assert(rows@.take(i as int + 1).last() == rows@[i as int]);
        match &urls[i] {
            Some(u) => {
                if find_guid(&out, &rows[i].guid).is_none() {
                    let row = StagedRow {
                        guid: rows[i].guid.clone(),
                        url: u.clone(),
                        title: clone_opt(&rows[i].title),
                    };
                    proof {
                        assert(staged_views(out@.push(row)) =~= staged_views(out@).push(
                            staged_view(row),
                        ));
                    }
                    out.push(row);
                }
            },
            None => {},
        }
        i = i + 1;
    }
    assert(rows@.take(rows.len() as int) =~= rows@);
    out
}

/// Builds the staging table from the legacy pages: each page whose URL
/// normalises, under that URL, the first page of each guid winning.
pub fn stage_history(rows: &Vec<ForeignHistoryRow>) -> (r: Vec<StagedRow>)
    ensures
        staged_views(r@) == stage_from(rows@, normalized_urls(rows@)),
{
    let mut urls: Vec<Option<String>> = Vec::new();
    let mut i: usize = 0;
    while i < rows.len()
        invariant
            i <= rows.len(),
            urls.len() == i,
            forall|k: int| 0 <= k < i ==> opt_view(#[trigger] urls@[k]) == row_url(rows@[k]),
        decreases rows.len() - i,
    {
        let u = match &rows[i].url {
            Some(s) => validate_url(s.as_str()),
            None => None,
        };
        urls.push(u);
        i = i + 1;
    }
    let r = stage_normalized(rows, &urls);
    assert(opt_views(urls@) =~= normalized_urls(rows@));
    r
}

/// Adds a page for each staged URL that the store does not hold yet; pages
/// already there are left as they are.
pub fn fill_places(places: &mut Vec<Place>, staged: &Vec<StagedRow>)
    ensures
        place_views(final(places)@) == fill_places_spec(place_views(old(places)@), staged_views(staged@)),
{
    let ghost p0 = place_views(places@);
    let ghost sv = staged_views(staged@);
    let mut k: usize = 0;
    while k < staged.len()
        invariant
            k <= staged.len(),
            sv == staged_views(staged@),
            place_views(places@) == fill_places_spec(p0, sv.take(k as int)),
        decreases staged.len() - k,
    {
        assert(sv.take(k as int + 1).drop_last() =~= sv.take(k as int));
        assert(sv.take(k as int + 1).last() == sv[k as int]);
        if find_place(places, &staged[k].url).is_none() {
            let p = Place { url: staged[k].url.clone(), title: clone_opt(&staged[k].title) };
            proof {
                assert(place_views(places@.push(p)) =~= place_views(places@).push(place_view(p)));
            }
            places.push(p);
        }
        k = k + 1;
    }
    assert(sv.take(staged.len() as int) =~= sv);
}

/// Adds a visit for each legacy visit whose guid is staged and whose staged URL
/// has a page; the others are skipped.
pub fn insert_visits(
    visits: &mut Vec<Visit>,
    foreign: &Vec<ForeignVisit>,
    staged: &Vec<StagedRow>,
    places: &Vec<Place>,
)
    ensures
        final(visits)@ == insert_visits_spec(
            old(visits)@,
            foreign@,
            staged_views(staged@),
            place_views(places@),
        ),
{
    let ghost sv = staged_views(staged@);
    let ghost pv = place_views(places@);
    let mut k: usize = 0;
    while k < foreign.len()
        invariant
            k <= foreign.len(),
            sv == staged_views(staged@),
            pv == place_views(places@),
            visits@ == insert_visits_spec(old(visits)@, foreign@.take(k as int), sv, pv),
        decreases foreign.len() - k,
    {
        assert(foreign@.take(k as int + 1).drop_last() =~= foreign@.take(k as int));
        assert(foreign@.take(k as int + 1).last() == foreign@[k as int]);
        let v = &foreign[k];
        match find_guid(staged, &v.history_guid) {
            Some(i) => {
                proof {
                    lemma_guid_index_found(sv, v.history_guid@, 0);
                }
                match find_place(places, &staged[i].url) {
                    Some(p) => {
                        visits.push(
                            Visit {
                                place_id: p,
                                date: v.date,
                                visit_type: v.visit_type,
                                is_local: v.is_local,
                            },
                        );
                    },
                    None => {},
                }
            },
            None => {},
        }
        k = k + 1;
    }
    assert(foreign@.take(foreign.len() as int) =~= foreign@);
}

/// The staging table that an import of `src` builds.
pub open spec fn staged_of(src: ForeignDatabase) -> Seq<StagedView> {
    stage_from(src.history@, normalized_urls(src.history@))
}

/// The store's pages after importing `src`.
pub open spec fn places_after(places: Seq<PlaceView>, src: ForeignDatabase) -> Seq<PlaceView> {
    fill_places_spec(places, staged_of(src))
}

/// The store's visits after importing `src`.
pub open spec fn visits_after(places: Seq<PlaceView>, visits: Seq<Visit>, src: ForeignDatabase) -> Seq<
    Visit,
> {
    insert_visits_spec(visits, src.visits@, staged_of(src), places_after(places, src))
}

/// What an import of `src` reports, before its duration is filled in.
pub open spec fn import_result_spec(
    places: Seq<PlaceView>,
    visits: Seq<Visit>,
    src: ForeignDatabase,
) -> HistoryMigrationResult {
    let total = src.visits.len() as int;
    let succeeded = visits_after(places, visits, src).len() - visits.len();
    HistoryMigrationResult {
        num_total: total as u64,
        num_succeeded: succeeded as u64,
        num_failed: (total - succeeded) as u64,
        total_duration: 0,
    }
}

/// Inserting visits adds at most one visit per legacy visit and keeps the old ones.
pub proof fn lemma_insert_visits_bounds(
    visits: Seq<Visit>,
    foreign: Seq<ForeignVisit>,
    staged: Seq<StagedView>,
    places: Seq<PlaceView>,
)
    ensures
        visits.len() <= insert_visits_spec(visits, foreign, staged, places).len() <= visits.len()
            + foreign.len(),
        insert_visits_spec(visits, foreign, staged, places).take(visits.len() as int) == visits,
    decreases foreign.len(),
{
    if foreign.len() > 0 {
        lemma_insert_visits_bounds(visits, foreign.drop_last(), staged, places);
        let prev = insert_visits_spec(visits, foreign.drop_last(), staged, places);
        let r = insert_visits_spec(visits, foreign, staged, places);
        if r.len() > prev.len() {
            assert(r.take(visits.len() as int) =~= prev.take(visits.len() as int));
        }
    }
}

/// The migration report from the number of legacy visits and the store's visit
/// count before and after the import.
pub fn account(num_total: u64, before: u64, after: u64, total_duration: u64) -> (r:
    HistoryMigrationResult)
    requires
        before <= after,
        after - before <= num_total,
    ensures
        r.num_total == num_total,
        r.num_succeeded == after - before,
        r.num_failed == num_total - (after - before),
        r.num_failed + r.num_succeeded == r.num_total,
        r.total_duration == total_duration,
{
    let num_succeeded = after - before;
    HistoryMigrationResult {
        num_total,
        num_succeeded,
        num_failed: num_total - num_succeeded,
        total_duration,
    }
}

/// Accepts a legacy schema version no older than the minimum.
pub fn check_version(db_version: i64) -> (r: Result<(), ImportError>)
    ensures
        r is Ok <==> db_version >= MIN_FOREIGN_DB_VERSION,
        r is Err ==> r == Err::<(), ImportError>(ImportError::UnsupportedDatabaseVersion(db_version)),
{
    if db_version < MIN_FOREIGN_DB_VERSION {
        Err(ImportError::UnsupportedDatabaseVersion(db_version))
    } else {
        Ok(())
    }
}

fn clone_places(v: &Vec<Place>) -> (r: Vec<Place>)
    ensures
        place_views(r@) == place_views(v@),
{
    let mut out: Vec<Place> = Vec::new();
    let mut i: usize = 0;
    while i < v.len()
        invariant
            i <= v.len(),
            place_views(out@) == place_views(v@.take(i as int)),
        decreases v.len() - i,
    {
        let p = Place { url: v[i].url.clone(), title: clone_opt(&v[i].title) };
        proof {
            assert(place_views(out@.push(p)) =~= place_views(out@).push(place_view(p)));
            assert(place_views(v@.take(i as int + 1)) =~= place_views(v@.take(i as int)).push(
                place_view(v@[i as int]),
            ));
        }
        out.push(p);
        i = i + 1;
    }
    assert(v@.take(v.len() as int) =~= v@);
    out
}

fn clone_visits(v: &Vec<Visit>) -> (r: Vec<Visit>)
    ensures
        r@ == v@,
{
    let mut out: Vec<Visit> = Vec::new();
    let mut i: usize = 0;
    while i < v.len()
        invariant
            i <= v.len(),
            out@ == v@.take(i as int),
        decreases v.len() - i,
    {
        out.push(v[i]);
        assert(out@ =~= v@.take(i as int + 1));
        i = i + 1;
    }
    assert(v@.take(v.len() as int) =~= v@);
    out
}

/// The report of an import whose visits went from `v0` to `after`.
fn report_import(
    src: &ForeignDatabase,
    before: usize,
    after: &Vec<Visit>,
    Ghost(p0): Ghost<Seq<PlaceView>>,
    Ghost(v0): Ghost<Seq<Visit>>,
) -> (r: HistoryMigrationResult)
    requires
        before == v0.len(),
        after@ == visits_after(p0, v0, *src),
    ensures
        r == import_result_spec(p0, v0, *src),
{
    proof {
        lemma_insert_visits_bounds(v0, src.visits@, staged_of(*src), places_after(p0, *src));
    }
    account(src.visits.len() as u64, before as u64, after.len() as u64, 0)
}

/// Imports the legacy pages and visits of `src` into `store`, whatever its
/// schema version: pages whose URL normalises are staged, missing pages are
/// added, and each legacy visit whose page resolves becomes a visit.
pub fn import_rows(store: &mut Store, src: &ForeignDatabase) -> (r: HistoryMigrationResult)
    ensures
        place_views(final(store).places@) == places_after(place_views(old(store).places@), *src),
        final(store).visits@ == visits_after(place_views(old(store).places@), old(store).visits@, *src),
        r == import_result_spec(place_views(old(store).places@), old(store).visits@, *src),
{
    let ghost p0 = place_views(store.places@);
    let ghost v0 = store.visits@;
    let before = store.visits.len();
    let staged = stage_history(&src.history);
    fill_places(&mut store.places, &staged);
    insert_visits(&mut store.visits, &src.visits, &staged, &store.places);
    report_import(src, before, &store.visits, Ghost(p0), Ghost(v0))
}

/// Imports `src` into `store` as one transaction, watching `handle` for
/// cancellation after adding pages and after adding visits.
///
/// A schema older than the minimum is refused before anything else happens;
/// a cancellation leaves the store as it was; on success the store and the
/// report are those of `import_rows`.
pub fn import_history(store: &mut Store, src: &ForeignDatabase, handle: &InterruptHandle) -> (r:
    Result<HistoryMigrationResult, ImportError>)
    ensures
        src.user_version < MIN_FOREIGN_DB_VERSION ==> r == Err::<HistoryMigrationResult, ImportError>(
            ImportError::UnsupportedDatabaseVersion(src.user_version),
        ),
        src.user_version >= MIN_FOREIGN_DB_VERSION ==> (r is Ok || r == Err::<
            HistoryMigrationResult,
            ImportError,
        >(ImportError::Interrupted)),
        r is Err ==> *final(store) == *old(store),
        r is Ok ==> {
            &&& place_views(final(store).places@) == places_after(
                place_views(old(store).places@),
                *src,
            )
            &&& final(store).visits@ == visits_after(
                place_views(old(store).places@),
                old(store).visits@,
                *src,
            )
            &&& r->Ok_0 == import_result_spec(place_views(old(store).places@), old(store).visits@, *src)
        },
{
    let scope = handle.begin_interrupt_scope();
    match check_version(src.user_version) {
        Err(e) => {
            return Err(e);
        },
        Ok(()) => {},
    }
    let ghost p0 = place_views(store.places@);
    let ghost v0 = store.visits@;
    let before = store.visits.len();
    let staged = stage_history(&src.history);
    let mut places = clone_places(&store.places);
    fill_places(&mut places, &staged);
    if scope.err_if_interrupted(handle).is_err() {
        return Err(ImportError::Interrupted);
    }
    let mut visits = clone_visits(&store.visits);
    insert_visits(&mut visits, &src.visits, &staged, &places);
    if scope.err_if_interrupted(handle).is_err() {
        return Err(ImportError::Interrupted);
    }
    let r = report_import(src, before, &visits, Ghost(p0), Ghost(v0));
    store.places = places;
    store.visits = visits;
    Ok(r)
}

/// Every import's report accounts for each legacy visit: the visits that failed
/// are those that did not land, and no more visits land than there were.
pub proof fn lemma_report_accounts(places: Seq<PlaceView>, visits: Seq<Visit>, src: ForeignDatabase)
    ensures
        import_result_spec(places, visits, src).num_succeeded <= import_result_spec(
            places,
            visits,
            src,
        ).num_total,
        import_result_spec(places, visits, src).num_failed == import_result_spec(
            places,
            visits,
            src,
        ).num_total - import_result_spec(places, visits, src).num_succeeded,
{
    lemma_insert_visits_bounds(visits, src.visits@, staged_of(src), places_after(places, src));
}

/// Importing a legacy database with no pages and no visits reports nothing to
/// import, nothing failed, and leaves the store's pages and visits as they were.
pub proof fn lemma_empty_import(places: Seq<PlaceView>, visits: Seq<Visit>, src: ForeignDatabase)
    requires
        src.history@.len() == 0,
        src.visits@.len() == 0,
    ensures
        import_result_spec(places, visits, src).num_total == 0,
        import_result_spec(places, visits, src).num_succeeded == 0,
        import_result_spec(places, visits, src).num_failed == 0,
        places_after(places, src) == places,
        visits_after(places, visits, src) == visits,
{
}

pub open spec fn has_url(places: Seq<PlaceView>, u: Seq<char>) -> bool {
    exists|j: int| 0 <= j < places.len() && places[j].url == u
}

proof fn lemma_has_url_found(places: Seq<PlaceView>, u: Seq<char>)
    ensures
        has_url(places, u) <==> place_index_from(places, u, 0) is Some,
{
    lemma_place_index_found(places, u, 0);
}

proof fn lemma_fill_keeps_and_covers(places: Seq<PlaceView>, staged: Seq<StagedView>)
    ensures
        places.len() <= fill_places_spec(places, staged).len(),
        forall|j: int| 0 <= j < places.len() ==> fill_places_spec(places, staged)[j] == places[j],
        forall|k: int|
            0 <= k < staged.len() ==> has_url(fill_places_spec(places, staged), #[trigger] staged[k].url),
    decreases staged.len(),
{
    if staged.len() > 0 {
        let prev = fill_places_spec(places, staged.drop_last());
        lemma_fill_keeps_and_covers(places, staged.drop_last());
        let r = fill_places_spec(places, staged);
        lemma_has_url_found(prev, staged.last().url);
        assert forall|k: int| 0 <= k < staged.len() implies has_url(r, #[trigger] staged[k].url) by {
            if k < staged.len() - 1 {
                assert(staged.drop_last()[k] == staged[k]);
                assert(has_url(prev, staged[k].url));
                let j = choose|j: int| 0 <= j < prev.len() && prev[j].url == staged[k].url;
                assert(r[j] == prev[j]);
            } else if place_index_from(prev, staged.last().url, 0) is None {
                assert(r[prev.len() as int].url == staged[k].url);
            } else {
                assert(r == prev);
            }
        }
    }
}

proof fn lemma_fill_covered_is_noop(places: Seq<PlaceView>, staged: Seq<StagedView>)
    requires
        forall|k: int| 0 <= k < staged.len() ==> has_url(places, #[trigger] staged[k].url),
    ensures
        fill_places_spec(places, staged) == places,
    decreases staged.len(),
{
    if staged.len() > 0 {
        assert forall|k: int| 0 <= k < staged.drop_last().len() implies has_url(
            places,
            #[trigger] staged.drop_last()[k].url,
        ) by {
            assert(staged.drop_last()[k] == staged[k]);
        }
        lemma_fill_covered_is_noop(places, staged.drop_last());
        assert(has_url(places, staged[staged.len() - 1].url));
        lemma_has_url_found(places, staged.last().url);
    }
}

/// Importing the same legacy database a second time adds no page: every URL it
/// brings already has its page after the first import.
pub proof fn lemma_reimport_adds_no_places(places: Seq<PlaceView>, src: ForeignDatabase)
    ensures
        places_after(places_after(places, src), src) == places_after(places, src),
{
    lemma_fill_keeps_and_covers(places, staged_of(src));
    lemma_fill_covered_is_noop(places_after(places, src), staged_of(src));
}

proof fn lemma_staged_from_normalized(rows: Seq<ForeignHistoryRow>, urls: Seq<Option<Seq<char>>>)
    requires
        urls.len() == rows.len(),
    ensures
        forall|i: int|
            0 <= i < stage_from(rows, urls).len() ==> exists|j: int|
                0 <= j < rows.len() && rows[j].guid@ == #[trigger] stage_from(rows, urls)[i].guid
                    && urls[j] == Some(stage_from(rows, urls)[i].url),
    decreases rows.len(),
{
    if rows.len() > 0 {
        let short = urls.take(rows.len() - 1);
        lemma_stage_prefix_urls(rows.drop_last(), urls, short);
        lemma_staged_from_normalized(rows.drop_last(), short);
        let prev = stage_from(rows.drop_last(), urls);
        let r = stage_from(rows, urls);
        assert forall|i: int| 0 <= i < r.len() implies exists|j: int|
            0 <= j < rows.len() && rows[j].guid@ == #[trigger] r[i].guid && urls[j] == Some(
                r[i].url,
            ) by {
            if i < prev.len() {
                assert(r[i] == prev[i]);
                let j = choose|j: int|
                    0 <= j < rows.drop_last().len() && rows.drop_last()[j].guid@ == #[trigger] prev[i].guid
                        && short[j] == Some(prev[i].url);
                assert(rows.drop_last()[j] == rows[j]);
                assert(short[j] == urls[j]);
            } else {
                assert(rows[rows.len() - 1].guid@ == r[i].guid);
            }
        }
    }
}

proof fn lemma_stage_prefix_urls(
    rows: Seq<ForeignHistoryRow>,
    urls: Seq<Option<Seq<char>>>,
    short: Seq<Option<Seq<char>>>,
)
    requires
        rows.len() <= short.len() <= urls.len(),
        forall|j: int| 0 <= j < short.len() ==> short[j] == urls[j],
    ensures
        stage_from(rows, urls) == stage_from(rows, short),
    decreases rows.len(),
{
    if rows.len() > 0 {
        lemma_stage_prefix_urls(rows.drop_last(), urls, short);
    }
}

/// A legacy page whose URL does not normalise is never staged: every staged row
/// carries the guid of a legacy page whose URL normalised to the staged URL. So
/// a visit to a guid whose pages all have such URLs lands nowhere.
pub proof fn lemma_unparsable_not_staged(src: ForeignDatabase, g: Seq<char>)
    ensures
        forall|i: int|
            0 <= i < staged_of(src).len() ==> exists|j: int|
                0 <= j < src.history@.len() && src.history@[j].guid@ == #[trigger] staged_of(
                    src,
                )[i].guid && row_url(src.history@[j]) == Some(staged_of(src)[i].url),
        (forall|j: int|
            0 <= j < src.history@.len() && src.history@[j].guid@ == g ==> row_url(
                #[trigger] src.history@[j],
            ) is None) ==> guid_index_from(staged_of(src), g, 0) is None && forall|
            places: Seq<PlaceView>,
        | #[trigger] visit_target(staged_of(src), places, g) is None,
{
    let rows = src.history@;
    let urls = normalized_urls(rows);
    lemma_staged_from_normalized(rows, urls);
    assert forall|i: int| 0 <= i < staged_of(src).len() implies exists|j: int|
        0 <= j < rows.len() && rows[j].guid@ == #[trigger] staged_of(src)[i].guid && row_url(
            rows[j],
        ) == Some(staged_of(src)[i].url) by {
        let j = choose|j: int|
            0 <= j < rows.len() && rows[j].guid@ == #[trigger] stage_from(rows, urls)[i].guid
                && urls[j] == Some(stage_from(rows, urls)[i].url);
        assert(urls[j] == row_url(rows[j]));
    }
    lemma_guid_index_found(staged_of(src), g, 0);
    if (forall|j: int|
        0 <= j < rows.len() && rows[j].guid@ == g ==> row_url(#[trigger] rows[j]) is None) {
        if guid_index_from(staged_of(src), g, 0) is Some {
            let i = guid_index_from(staged_of(src), g, 0)->0;
            let j = choose|j: int|
                0 <= j < rows.len() && rows[j].guid@ == #[trigger] staged_of(src)[i].guid
                    && row_url(rows[j]) == Some(staged_of(src)[i].url);
            assert(false);
        }
    }
}

/// The number of legacy visits whose page resolves.
pub open spec fn resolved_count(
    foreign: Seq<ForeignVisit>,
    staged: Seq<StagedView>,
    places: Seq<PlaceView>,
) -> nat
    decreases foreign.len(),
{
    if foreign.len() == 0 {
        0
    } else {
        resolved_count(foreign.drop_last(), staged, places) + if visit_target(
            staged,
            places,
            foreign.last().history_guid@,
        ) is Some {
            1nat
        } else {
            0nat
        }
    }
}

proof fn lemma_insert_visits_count(
    visits: Seq<Visit>,
    foreign: Seq<ForeignVisit>,
    staged: Seq<StagedView>,
    places: Seq<PlaceView>,
)
    ensures
        insert_visits_spec(visits, foreign, staged, places).len() == visits.len() + resolved_count(
            foreign,
            staged,
            places,
        ),
    decreases foreign.len(),
{
    if foreign.len() > 0 {
        lemma_insert_visits_count(visits, foreign.drop_last(), staged, places);
    }
}

/// An import succeeds for exactly the legacy visits whose page resolves, and
/// fails for each of the others: a visit whose guid is not staged, or whose
/// staged URL has no page, adds one to the failed count and none to the store.
pub proof fn lemma_failed_counts_unresolved(
    places: Seq<PlaceView>,
    visits: Seq<Visit>,
    src: ForeignDatabase,
)
    ensures
        import_result_spec(places, visits, src).num_succeeded == resolved_count(
            src.visits@,
            staged_of(src),
            places_after(places, src),
        ),
        import_result_spec(places, visits, src).num_failed == src.visits@.len() - resolved_count(
            src.visits@,
            staged_of(src),
            places_after(places, src),
        ),
        visits_after(places, visits, src).len() == visits.len() + resolved_count(
            src.visits@,
            staged_of(src),
            places_after(places, src),
        ),
{
    lemma_insert_visits_count(visits, src.visits@, staged_of(src), places_after(places, src));
    lemma_insert_visits_bounds(visits, src.visits@, staged_of(src), places_after(places, src));
}

proof fn lemma_fill_new_from_staged(places: Seq<PlaceView>, staged: Seq<StagedView>)
    ensures
        forall|j: int|
            places.len() <= j < fill_places_spec(places, staged).len() ==> exists|k: int|
                0 <= k < staged.len() && staged[k].url == #[trigger] fill_places_spec(
                    places,
                    staged,
                )[j].url,
    decreases staged.len(),
{
    if staged.len() > 0 {
        lemma_fill_new_from_staged(places, staged.drop_last());
        let prev = fill_places_spec(places, staged.drop_last());
        let r = fill_places_spec(places, staged);
        assert forall|j: int| places.len() <= j < r.len() implies exists|k: int|
            0 <= k < staged.len() && staged[k].url == #[trigger] r[j].url by {
            if j < prev.len() {
                assert(r[j] == prev[j]);
                let k = choose|k: int|
                    0 <= k < staged.drop_last().len() && staged.drop_last()[k].url
                        == #[trigger] prev[j].url;
                assert(staged.drop_last()[k] == staged[k]);
            } else {
                assert(staged[staged.len() - 1].url == r[j].url);
            }
        }
    }
}

/// Every page that an import adds carries the normalised URL of a legacy page
/// whose URL parsed: no page is ever added for a URL that does not parse.
pub proof fn lemma_new_pages_parsed(places: Seq<PlaceView>, src: ForeignDatabase)
    ensures
        forall|j: int|
            places.len() <= j < places_after(places, src).len() ==> exists|i: int|
                0 <= i < src.history@.len() && row_url(src.history@[i]) == Some(
                    #[trigger] places_after(places, src)[j].url,
                ),
{
    let staged = staged_of(src);
    lemma_fill_new_from_staged(places, staged);
    lemma_unparsable_not_staged(src, Seq::empty());
    assert forall|j: int| places.len() <= j < places_after(places, src).len() implies exists|i: int|
        0 <= i < src.history@.len() && row_url(src.history@[i]) == Some(
            #[trigger] places_after(places, src)[j].url,
        ) by {
        let k = choose|k: int|
            0 <= k < staged.len() && staged[k].url == #[trigger] fill_places_spec(places, staged)[j].url;
        let i = choose|i: int|
            0 <= i < src.history@.len() && src.history@[i].guid@ == #[trigger] staged[k].guid
                && row_url(src.history@[i]) == Some(staged[k].url);
    }
}

} // verus!
