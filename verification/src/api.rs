//! The catalogue API: importing quizzes from Kahoot, and listing, searching
//! and featuring the stored ones.
//!
//! The store hands its entries over in its own order; an entry that could
//! not be read is `None` and is passed over.
use vstd::prelude::*;

use crate::database::{DatabaseGame, DatabaseQuestion};
use crate::err::{is_failure, missing_parameter_message, FailResponse, KascreechError};
use crate::request::{body_field, body_view, read_body_field};
use crate::ranking::sort_stable_by_key;
use crate::text::{lowercase, lowercase_chars, occurs, occurs_in};

verus! {

/// How many games a page of results holds.
pub const COUNT: usize = 10;

/// A quiz as Kahoot's API describes it.
#[derive(Debug)]
pub struct KahootGame {
    pub uuid: String,
    pub title: String,
    pub description: String,
    pub author: String,
    pub image: Option<String>,
    pub questions: Vec<DatabaseQuestion>,
}

/// The first `n` elements of `s`, or all of them if there are fewer.
pub open spec fn at_most<T>(s: Seq<T>, n: nat) -> Seq<T> {
    if s.len() <= n {
        s
    } else {
        s.take(n as int)
    }
}

/// Keeps the entries that could be read.
pub open spec fn readable() -> spec_fn(Option<DatabaseGame>) -> Option<DatabaseGame> {
    |e: Option<DatabaseGame>| e
}

/// Game `g` matches the lower-case `query`: it occurs in its name or its
/// author's name, ignoring ASCII case.
pub open spec fn game_matches(g: DatabaseGame, query: Seq<char>) -> bool {
    occurs_in(query, lowercase(g.name@)) || occurs_in(query, lowercase(g.author@))
}

/// Keeps the readable entries that match the lower-case `query`.
pub open spec fn matching(query: Seq<char>) -> spec_fn(Option<DatabaseGame>) -> Option<DatabaseGame> {
    |e: Option<DatabaseGame>|
        match e {
            Some(g) => if game_matches(g, query) {
                Some(g)
            } else {
                None
            },
            None => None,
        }
}

/// Keeps the readable entries that are featured.
pub open spec fn featured_only() -> spec_fn(Option<DatabaseGame>) -> Option<DatabaseGame> {
    |e: Option<DatabaseGame>|
        match e {
            Some(g) => if g.featured {
                Some(g)
            } else {
                None
            },
            None => None,
        }
}

/// Which entries a query keeps.
enum Pick {
    Readable,
    Matching(Vec<char>),
    Featured,
}

spec fn pick_fn(p: Pick) -> spec_fn(Option<DatabaseGame>) -> Option<DatabaseGame> {
    match p {
        Pick::Readable => readable(),
        Pick::Matching(q) => matching(q@),
        Pick::Featured => featured_only(),
    }
}

proof fn lemma_filter_map_add<A, B>(a: Seq<A>, b: Seq<A>, f: spec_fn(A) -> Option<B>)
    ensures
        (a + b).filter_map(f) == a.filter_map(f) + b.filter_map(f),
    decreases b.len(),
{
    if b.len() == 0 {
        assert(a + b =~= a);
        assert(a.filter_map(f) + b.filter_map(f) =~= a.filter_map(f));
    } else {
        lemma_filter_map_add(a, b.drop_last(), f);
        assert((a + b).drop_last() =~= a + b.drop_last());
        assert((a + b).last() == b.last());
        match f(b.last()) {
            Some(x) => {
                assert(a.filter_map(f) + b.filter_map(f) =~= a.filter_map(f) + b.drop_last().filter_map(f)
                    + seq![x]);
            },
            None => {},
        }
    }
}

proof fn lemma_filter_map_len<A, B>(s: Seq<A>, f: spec_fn(A) -> Option<B>)
    ensures
        s.filter_map(f).len() <= s.len(),
    decreases s.len(),
{
    if s.len() > 0 {
        lemma_filter_map_len(s.drop_last(), f);
    }
}

/// Whether the query `pick` keeps entry `e`.
fn keeps(pick: &Pick, e: &Option<DatabaseGame>) -> (kept: bool)
    ensures
        kept == (pick_fn(*pick)(*e) is Some),
        kept ==> pick_fn(*pick)(*e) == *e,
{
    match e {
        None => false,
        Some(g) => match pick {
            Pick::Readable => true,
            Pick::Featured => g.featured,
            Pick::Matching(q) => {
                let name = lowercase_chars(g.name.as_str());
                let author = lowercase_chars(g.author.as_str());
                occurs(q, &name) || occurs(q, &author)
            },
        },
    }
}

/// The first `limit` entries that `pick` keeps, in order.
fn select_games(entries: Vec<Option<DatabaseGame>>, pick: Pick, limit: usize) -> (games: Vec<DatabaseGame>)
    ensures
        games@ == at_most(entries@.filter_map(pick_fn(pick)), limit as nat),
{
    let ghost orig = entries@;
    let ghost f = pick_fn(pick);
    let n = entries.len();
    let mut rest = entries;
    let mut games: Vec<DatabaseGame> = Vec::new();
    let mut k: usize = 0;
    assert(orig.take(0).filter_map(f) =~= Seq::<DatabaseGame>::empty());
    assert(rest@ =~= orig.skip(0));
    while k < n && games.len() < limit
        invariant
            n == orig.len(),
            f == pick_fn(pick),
            k <= n,
            rest@ == orig.skip(k as int),
            games@ == orig.take(k as int).filter_map(f),
            games.len() <= limit,
        decreases n - k,
    {
        let e = rest.remove(0);
        let kept = keeps(&pick, &e);
        proof {
            assert(orig.take(k + 1) =~= orig.take(k as int) + seq![e]);
            lemma_filter_map_add(orig.take(k as int), seq![e], f);
            assert(seq![e].drop_last() =~= Seq::<Option<DatabaseGame>>::empty());
            reveal_with_fuel(Seq::filter_map, 2);
        }
        if kept {
            match e {
                Some(g) => {
                    games.push(g);
                },
                None => {},
            }
            proof {
                assert(games@ =~= orig.take(k + 1).filter_map(f));
            }
        } else {
            proof {
                assert(games@ =~= orig.take(k + 1).filter_map(f));
            }
        }
        k = k + 1;
        proof {
            assert(rest@ =~= orig.skip(k as int));
        }
    }
    proof {
        assert(orig =~= orig.take(k as int) + orig.skip(k as int));
        lemma_filter_map_add(orig.take(k as int), orig.skip(k as int), f);
        if k == n {
            assert(orig.skip(k as int) =~= Seq::<Option<DatabaseGame>>::empty());
            assert(orig.skip(k as int).filter_map(f) =~= Seq::<DatabaseGame>::empty());
            assert(orig.take(k as int) =~= orig);
        } else {
            assert(orig.filter_map(f).take(limit as int) =~= games@);
        }
    }
    games
}

/// `v` without its first `n` elements.
fn skip_front<T>(v: Vec<T>, n: usize) -> (rest: Vec<T>)
    ensures
        rest@ == if n <= v@.len() {
            v@.skip(n as int)
        } else {
            Seq::empty()
        },
{
    let ghost orig = v@;
    let mut rest = v;
    let mut k: usize = 0;
    while k < n && rest.len() > 0
        invariant
            k <= n,
            k <= orig.len(),
            rest@ == orig.skip(k as int),
        decreases n - k,
    {
        rest.remove(0);
        k = k + 1;
        proof {
            assert(rest@ =~= orig.skip(k as int));
        }
    }
    proof {
        if n > orig.len() {
            assert(rest@ =~= Seq::<T>::empty());
        }
    }
    rest
}

/// `v` backwards.
fn reversed<T>(v: Vec<T>) -> (r: Vec<T>)
    ensures
        r@ == v@.reverse(),
{
    let ghost orig = v@;
    let n = v.len();
    let mut rest = v;
    let mut r: Vec<T> = Vec::new();
    while rest.len() > 0
        invariant
            n == orig.len(),
            rest.len() + r.len() == n,
            rest@ == orig.take(rest.len() as int),
            forall|i: int| 0 <= i < r.len() ==> #[trigger] r@[i] == orig[n - 1 - i],
        decreases rest.len(),
    {
        match rest.pop() {
            Some(x) => {
                r.push(x);
            },
            None => {},
        }
        proof {
            assert(rest@ =~= orig.take(rest.len() as int));
        }
    }
    assert(r@ =~= orig.reverse());
    r
}

/// A page of the catalogue: up to `COUNT` games, passing over the first
/// `offset` entries; without an offset the request is refused.
pub fn list(entries: Vec<Option<DatabaseGame>>, offset: Option<usize>) -> (page: Option<Vec<DatabaseGame>>)
    ensures
        offset is None ==> page is None,
        offset matches Some(o) ==> (page matches Some(games) && games@ == at_most(
            (if o <= entries@.len() {
                entries@.skip(o as int)
            } else {
                Seq::empty()
            }).filter_map(readable()),
            COUNT as nat,
        )),
{
    match offset {
        Some(o) => {
            let rest = skip_front(entries, o);
            Some(select_games(rest, Pick::Readable, COUNT))
        },
        None => None,
    }
}

/// The most recent games: up to `COUNT` readable entries from the last.
pub fn recent(entries: Vec<Option<DatabaseGame>>) -> (games: Vec<DatabaseGame>)
    ensures
        games@ == at_most(entries@.reverse().filter_map(readable()), COUNT as nat),
{
    select_games(reversed(entries), Pick::Readable, COUNT)
}

/// Up to `COUNT` games whose name or author contains `query`, ignoring
/// ASCII case; without a query the request is refused.
pub fn search(entries: Vec<Option<DatabaseGame>>, query: Option<String>) -> (found: Option<Vec<DatabaseGame>>)
    ensures
        query is None ==> found is None,
        query matches Some(q) ==> (found matches Some(games) && games@ == at_most(
            entries@.filter_map(matching(lowercase(q@))),
            COUNT as nat,
        )),
{
    match query {
        Some(q) => {
            let lower = lowercase_chars(q.as_str());
            Some(select_games(entries, Pick::Matching(lower), COUNT))
        },
        None => None,
    }
}

fn negated_plays(g: &DatabaseGame) -> (key: i128)
    ensures
        key == -(g.plays as int),
{
    -(g.plays as i128)
}

/// Orders games by descending plays.
pub open spec fn by_plays_descending() -> spec_fn(DatabaseGame) -> int {
    |g: DatabaseGame| -(g.plays as int)
}

/// The featured games, most played first.
pub fn featured(entries: Vec<Option<DatabaseGame>>) -> (games: Vec<DatabaseGame>)
    ensures
        games@ == crate::ranking::sort_by_key(
            entries@.filter_map(featured_only()),
            by_plays_descending(),
        ),
{
    let n = entries.len();
    let ghost orig = entries@;
    let chosen = select_games(entries, Pick::Featured, n);
    proof {
        lemma_filter_map_len(orig, featured_only());
    }
    sort_stable_by_key(chosen, negated_plays, Ghost(by_plays_descending()))
}

/// The message of a refused import for an empty Kahoot id.
pub open spec fn no_kahoot_id_message() -> Seq<char> {
    "No Kahoot ID provided"@
}

/// A Kahoot id may be looked up only if it is not empty; an empty one is
/// refused as a quiz Kahoot does not know.
pub fn check_kahoot_id(id: &str) -> (result: Result<(), FailResponse>)
    ensures
        result is Ok <==> id@.len() > 0,
        result matches Err(e) ==> is_failure(e, KascreechError::KahootGameNotFound, Some(no_kahoot_id_message())),
{
    if id.unicode_len() == 0 {
        Err(FailResponse::new(KascreechError::KahootGameNotFound, Some(String::from_str("No Kahoot ID provided"))))
    } else {
        Ok(())
    }
}

impl KahootGame {
    /// The quiz as the catalogue stores it: under id `kahoot-<uuid>`, never
    /// played, imported from Kahoot, not featured.
    pub fn into_database_game(self) -> (game: DatabaseGame)
        ensures
            game.id@ == "kahoot-"@ + self.uuid@,
            game.name == self.title,
            game.description == self.description,
            game.author == self.author,
            game.image == self.image,
            game.questions == self.questions,
            game.plays == 0,
            game.kahoot,
            !game.featured,
    {
        let KahootGame { uuid, title, description, author, image, questions } = self;
        let mut id = String::from_str("kahoot-");
        id.append(uuid.as_str());
        DatabaseGame {
            id,
            name: title,
            description,
            author,
            image,
            questions,
            plays: 0,
            kahoot: true,
            featured: false,
        }
    }
}

/// The message of an import request that could not be parsed.
pub open spec fn unreadable_request_message() -> Seq<char> {
    "Request could not be parsed"@
}

/// The refusal of an import request that could not be parsed.
pub fn unreadable_request() -> (response: FailResponse)
    ensures
        is_failure(response, KascreechError::InvalidCommand, Some(unreadable_request_message())),
{
    FailResponse::new(KascreechError::InvalidCommand, Some(String::from_str("Request could not be parsed")))
}

/// The message of a refused import of a quiz that is already stored.
pub open spec fn already_imported_message() -> Seq<char> {
    "Game has already been imported"@
}

/// A quiz is imported only once: one that is already stored is refused.
pub fn check_not_imported(already_stored: bool) -> (result: Result<(), FailResponse>)
    ensures
        result is Ok <==> !already_stored,
        result matches Err(e) ==> is_failure(e, KascreechError::GameAlreadyExists, Some(already_imported_message())),
{
    if already_stored {
        Err(FailResponse::new(KascreechError::GameAlreadyExists, Some(String::from_str("Game has already been imported"))))
    } else {
        Ok(())
    }
}

/// The message of an import that the store failed to save.
pub open spec fn database_error_message() -> Seq<char> {
    "Database error"@
}

/// The refusal of an import that the store failed to save.
pub fn database_error() -> (response: FailResponse)
    ensures
        is_failure(response, KascreechError::UnknownError, Some(database_error_message())),
{
    FailResponse::new(KascreechError::UnknownError, Some(String::from_str("Database error")))
}

} // verus!

verus! {

/// A page of results never holds more than `COUNT` games.
pub proof fn lemma_page_size<T>(s: Seq<T>)
    ensures
        at_most(s, COUNT as nat).len() <= COUNT,
        at_most(s, COUNT as nat).len() == if s.len() <= COUNT {
            s.len()
        } else {
            COUNT as nat
        },
{
}

proof fn lemma_filter_map_origin<A, B>(s: Seq<A>, f: spec_fn(A) -> Option<B>, i: int)
    requires
        0 <= i < s.filter_map(f).len(),
    ensures
        exists|k: int| 0 <= k < s.len() && f(#[trigger] s[k]) == Some(s.filter_map(f)[i]),
    decreases s.len(),
{
    let t = s.drop_last();
    match f(s.last()) {
        Some(x) => {
            if i < t.filter_map(f).len() {
                lemma_filter_map_origin(t, f, i);
                let k = choose|k: int| 0 <= k < t.len() && f(#[trigger] t[k]) == Some(t.filter_map(f)[i]);
                assert(s[k] == t[k]);
                assert(s.filter_map(f)[i] == t.filter_map(f)[i]);
            } else {
                assert(s.filter_map(f)[i] == x);
                assert(f(s[s.len() - 1]) == Some(x));
            }
        },
        None => {
            lemma_filter_map_origin(t, f, i);
            let k = choose|k: int| 0 <= k < t.len() && f(#[trigger] t[k]) == Some(t.filter_map(f)[i]);
            assert(s[k] == t[k]);
        },
    }
}

/// Every game a search finds matches the query: its name or its author's
/// name contains the query, ignoring ASCII case.
pub proof fn lemma_search_hits_match(entries: Seq<Option<DatabaseGame>>, query: Seq<char>, i: int)
    requires
        0 <= i < at_most(entries.filter_map(matching(lowercase(query))), COUNT as nat).len(),
    ensures
        game_matches(
            at_most(entries.filter_map(matching(lowercase(query))), COUNT as nat)[i],
            lowercase(query),
        ),
{
    let f = matching(lowercase(query));
    let s = entries.filter_map(f);
    assert(at_most(s, COUNT as nat)[i] == s[i]);
    lemma_filter_map_origin(entries, f, i);
    let k = choose|k: int| 0 <= k < entries.len() && f(#[trigger] entries[k]) == Some(s[i]);
    match entries[k] {
        Some(g) => {},
        None => {},
    }
}

/// The featured games are featured, and the more played come first.
pub proof fn lemma_featured_order(entries: Seq<Option<DatabaseGame>>, i: int, j: int)
    requires
        0 <= i < j < crate::ranking::sort_by_key(
            entries.filter_map(featured_only()),
            by_plays_descending(),
        ).len(),
    ensures
        ({
            let games = crate::ranking::sort_by_key(entries.filter_map(featured_only()), by_plays_descending());
            &&& games[i].plays >= games[j].plays
            &&& games[i].featured
        }),
{
    let s = entries.filter_map(featured_only());
    let games = crate::ranking::sort_by_key(s, by_plays_descending());
    crate::ranking::lemma_sort_props(s, by_plays_descending());
    assert(by_plays_descending()(games[i]) <= by_plays_descending()(games[j]));
    assert(games.contains(games[i]));
    assert(s.contains(games[i]));
    let m = choose|m: int| 0 <= m < s.len() && s[m] == games[i];
    lemma_filter_map_origin(entries, featured_only(), m);
    let k = choose|k: int| 0 <= k < entries.len() && featured_only()(#[trigger] entries[k]) == Some(s[m]);
    match entries[k] {
        Some(g) => {},
        None => {},
    }
}

/// The query of a search request's body: its string `query` field when the
/// body is UTF-8 JSON holding one.
pub fn search_query(body: Option<Vec<u8>>) -> (query: Option<String>)
    ensures
        match body_field(body_view(body), "query"@) {
            Some(Some(q)) => query matches Some(r) && r@ == q,
            _ => query is None,
        },
{
    match read_body_field(body, "query") {
        Some(Some(q)) => Some(q),
        _ => None,
    }
}

/// Answers a search request with body `body`: without a readable string
/// `query` field it is refused; otherwise up to `COUNT` games whose name or
/// author contains the query, ignoring ASCII case.
pub fn search_request(entries: Vec<Option<DatabaseGame>>, body: Option<Vec<u8>>) -> (found: Option<Vec<DatabaseGame>>)
    ensures
        match body_field(body_view(body), "query"@) {
            Some(Some(q)) => found matches Some(games) && games@ == at_most(
                entries@.filter_map(matching(lowercase(q))),
                COUNT as nat,
            ),
            _ => found is None,
        },
{
    search(entries, search_query(body))
}

/// The Kahoot id of an import request with body `body`: a missing body, or
/// one that is not UTF-8 JSON, is refused as unreadable; JSON without a
/// string `id` field as missing a parameter.
pub fn import_request_id(body: Option<Vec<u8>>) -> (result: Result<String, FailResponse>)
    ensures
        match body_field(body_view(body), "id"@) {
            None => result matches Err(e) && is_failure(
                e,
                KascreechError::InvalidCommand,
                Some(unreadable_request_message()),
            ),
            Some(None) => result matches Err(e) && is_failure(
                e,
                KascreechError::FailedRead,
                Some(missing_parameter_message()),
            ),
            Some(Some(id)) => result matches Ok(r) && r@ == id,
        },
{
    match read_body_field(body, "id") {
        None => Err(unreadable_request()),
        Some(None) => Err(FailResponse::none_option()),
        Some(Some(id)) => Ok(id),
    }
}

/// How many entries of `s` hold a game.
pub open spec fn games_in(s: Seq<Option<DatabaseGame>>) -> nat
    decreases s.len(),
{
    if s.len() == 0 {
        0
    } else {
        games_in(s.drop_last()) + if s.last() is Some {
            1nat
        } else {
            0nat
        }
    }
}

proof fn lemma_games_in_take(s: Seq<Option<DatabaseGame>>, k: int)
    requires
        0 <= k <= s.len(),
    ensures
        games_in(s.take(k)) <= games_in(s),
        k < s.len() && s[k] is Some ==> games_in(s.take(k)) < games_in(s),
    decreases s.len(),
{
    if k < s.len() {
        assert(s.drop_last().len() == s.len() - 1);
        if k < s.len() - 1 {
            lemma_games_in_take(s.drop_last(), k);
            assert(s.drop_last().take(k) =~= s.take(k));
        } else {
            assert(s.take(k) =~= s.drop_last());
        }
    } else {
        assert(s.take(k) =~= s);
    }
}

/// The readable entries of `s`, in order: one game for each entry that
/// holds one, and the game of entry `k` comes after the games of the
/// entries before it.
proof fn lemma_readable_games(s: Seq<Option<DatabaseGame>>)
    ensures
        s.filter_map(readable()).len() == games_in(s),
        forall|k: int|
            0 <= k < s.len() && (#[trigger] s[k]) is Some ==> s.filter_map(readable())[games_in(s.take(k)) as int]
                == s[k]->0,
    decreases s.len(),
{
    if s.len() > 0 {
        let t = s.drop_last();
        lemma_readable_games(t);
        assert forall|k: int| 0 <= k < s.len() && (#[trigger] s[k]) is Some implies s.filter_map(readable())[games_in(
            s.take(k),
        ) as int] == s[k]->0 by {
            if k < s.len() - 1 {
                assert(t[k] == s[k]);
                assert(t.take(k) =~= s.take(k));
                lemma_games_in_take(t, k);
            } else {
                assert(s.take(k) =~= t);
            }
        }
    }
}

/// A page of readable entries passes over only entries that hold no game:
/// it holds as many games as the entries hold, up to `COUNT`, and the game
/// of every entry preceded by fewer than `COUNT` games stands in the page at
/// the place its predecessors leave it. `list` pages the entries after its
/// offset this way, and `recent` the entries from the last.
pub proof fn lemma_page_keeps_every_game(s: Seq<Option<DatabaseGame>>)
    ensures
        at_most(s.filter_map(readable()), COUNT as nat).len() == if games_in(s) <= COUNT {
            games_in(s)
        } else {
            COUNT as nat
        },
        forall|k: int|
            0 <= k < s.len() && (#[trigger] s[k]) is Some && games_in(s.take(k)) < COUNT ==> at_most(
                s.filter_map(readable()),
                COUNT as nat,
            )[games_in(s.take(k)) as int] == s[k]->0,
{
    lemma_readable_games(s);
    assert forall|k: int| 0 <= k < s.len() && (#[trigger] s[k]) is Some && games_in(s.take(k)) < COUNT implies at_most(
        s.filter_map(readable()),
        COUNT as nat,
    )[games_in(s.take(k)) as int] == s[k]->0 by {
        lemma_games_in_take(s, k);
    }
}

/// Every game that a search returns has the whole lower-cased query, as one
/// run of consecutive characters, in its lower-cased name or author.
pub proof fn lemma_search_hits_contain_query(entries: Seq<Option<DatabaseGame>>, query: Seq<char>, i: int)
    requires
        0 <= i < at_most(entries.filter_map(matching(lowercase(query))), COUNT as nat).len(),
    ensures
        ({
            let g = at_most(entries.filter_map(matching(lowercase(query))), COUNT as nat)[i];
            let q = lowercase(query);
            ||| exists|p: int|
                0 <= p && p + query.len() <= lowercase(g.name@).len() && #[trigger] lowercase(g.name@).subrange(
                    p,
                    p + query.len(),
                ) == q
            ||| exists|p: int|
                0 <= p && p + query.len() <= lowercase(g.author@).len() && #[trigger] lowercase(
                    g.author@,
                ).subrange(p, p + query.len()) == q
        }),
{
    lemma_search_hits_match(entries, query, i);
    let g = at_most(entries.filter_map(matching(lowercase(query))), COUNT as nat)[i];
    let q = lowercase(query);
    assert(q.len() == query.len());
    if occurs_in(q, lowercase(g.name@)) {
        let p = choose|p: int| 0 <= p <= lowercase(g.name@).len() - q.len() && #[trigger] lowercase(
            g.name@,
        ).subrange(p, p + q.len()) == q;
        assert(lowercase(g.name@).subrange(p, p + query.len()) == q);
    } else {
        let p = choose|p: int| 0 <= p <= lowercase(g.author@).len() - q.len() && #[trigger] lowercase(
            g.author@,
        ).subrange(p, p + q.len()) == q;
        assert(lowercase(g.author@).subrange(p, p + query.len()) == q);
    }
}

/// The page `list` returns for offset `o` passes over only the entries
/// before the offset and those that hold no game: every game after the
/// offset stands in the page while fewer than `COUNT` games come before it.
pub proof fn lemma_list_page(entries: Seq<Option<DatabaseGame>>, o: int)
    requires
        0 <= o <= entries.len(),
    ensures
        ({
            let rest = entries.skip(o);
            let page = at_most(rest.filter_map(readable()), COUNT as nat);
            &&& page.len() == if games_in(rest) <= COUNT {
                games_in(rest)
            } else {
                COUNT as nat
            }
            &&& forall|k: int|
                o <= k < entries.len() && (#[trigger] entries[k]) is Some && games_in(rest.take(k - o))
                    < COUNT ==> page[games_in(rest.take(k - o)) as int] == entries[k]->0
        }),
{
    let rest = entries.skip(o);
    lemma_page_keeps_every_game(rest);
    assert forall|k: int|
        o <= k < entries.len() && (#[trigger] entries[k]) is Some && games_in(rest.take(k - o)) < COUNT implies at_most(
        rest.filter_map(readable()),
        COUNT as nat,
    )[games_in(rest.take(k - o)) as int] == entries[k]->0 by {
        assert(rest[k - o] == entries[k]);
    }
}

/// The games `recent` returns are the games of the entries read from the
/// last: as many as the entries hold, up to `COUNT`, and the game of every
/// entry with fewer than `COUNT` games after it stands in the list at the
/// place the later games leave it.
pub proof fn lemma_recent_games(entries: Seq<Option<DatabaseGame>>)
    ensures
        ({
            let back = entries.reverse();
            let games = at_most(back.filter_map(readable()), COUNT as nat);
            &&& games.len() == if games_in(back) <= COUNT {
                games_in(back)
            } else {
                COUNT as nat
            }
            &&& forall|k: int|
                0 <= k < back.len() && (#[trigger] back[k]) is Some && games_in(back.take(k)) < COUNT
                    ==> games[games_in(back.take(k)) as int] == entries[entries.len() - 1 - k]->0
        }),
{
    lemma_page_keeps_every_game(entries.reverse());
}

} // verus!
