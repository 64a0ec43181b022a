//! The session engine: one context object holding the catalog, the derived
//! search index, the current query tokens and the request-scoped result
//! table, driven by search, complete and activate events. Each handler
//! consumes plain values and returns the responses to emit and the URLs to
//! dispatch; all I/O stays with the caller.

use vstd::prelude::*;

use crate::bang::{description_spec, name_spec, Bang};
use crate::config::AppConfig;
use crate::database::{has_trigger, sorted_desc, urls_distinct, Database};
use crate::index::{
    capped_matches, fold_case, lemma_search_sound_complete, lower_folded, matches_catalog,
    SearchIndex,
};
use crate::query::{
    free_text, join_spaced, join_tokens, last_token_open, shortcut_triggers, token_is_shortcut,
    tokenize, tokenize_str, views_of,
};
use crate::text::{replace_spec, replace_text};

verus! {

/// What `urlencoding::encode` returns for a given character sequence: the
/// percent-encoded form of its UTF-8 bytes. It depends on the input alone.
pub uninterp spec fn url_encoded(s: Seq<char>) -> Seq<char>;

/// Relies on `urlencoding::encode`: percent-encodes every byte except ASCII
/// alphanumerics and `-`, `_`, `.`, `~`, a pure function of the input.
#[verifier::external_body]
fn encode_query(s: &str) -> (r: String)
    ensures
        r@ == url_encoded(s@),
{
    urlencoding::encode(s).into_owned()
}

/// One request from the launcher, as the engine sees it.
pub enum Request {
    /// The user's current query text.
    Search(String),
    /// The user asked to complete the result with this identifier.
    Complete(u32),
    /// The user activated the result with this identifier.
    Activate(u32),
    /// The session should end.
    Exit,
    /// Any other request kind: ignored.
    Other,
}

/// One event the engine emits in answer to a request.
pub enum Response {
    /// Announce a ranked result under a request-scoped identifier.
    Append { id: u32, name: String, description: String },
    /// Replace the launcher's query text.
    Fill(String),
    /// Close the launcher session.
    Close,
    /// The terminal marker ending a search response.
    Finished,
}

/// Everything one request produces: responses for the launcher, URLs for
/// the environment to open, and whether the session should end.
pub struct Output {
    pub responses: Vec<Response>,
    pub open_urls: Vec<String>,
    pub exit: bool,
}

/// `r` announces result `id` with the given name and description.
pub open spec fn is_append(r: Response, id: int, name: Seq<char>, description: Seq<char>) -> bool {
    match r {
        Response::Append { id: i, name: n, description: d } => i == id && n@ == name && d@
            == description,
        _ => false,
    }
}

/// `r` carries the replacement query text `text`.
pub open spec fn is_fill(r: Response, text: Seq<char>) -> bool {
    match r {
        Response::Fill(t) => t@ == text,
        _ => false,
    }
}

/// The name of the synthetic "finish" item.
pub open spec fn finish_name() -> Seq<char> {
    "Finish"@
}

/// The description of the synthetic "finish" item.
pub open spec fn finish_description() -> Seq<char> {
    "Launch this item to open all your URLs"@
}

/// `r` is the synthetic inert item emitted when no live suggestion exists,
/// so the launcher still has something to activate.
pub open spec fn is_finish_item(r: Response) -> bool {
    is_append(r, 1, finish_name(), finish_description())
}

/// The synthetic inert item.
fn finish_item() -> (r: Response)
    ensures
        is_finish_item(r),
{
    Response::Append {
        id: 1,
        name: String::from_str("Finish"),
        description: String::from_str("Launch this item to open all your URLs"),
    }
}

/// The placeholder in a destination template marking where the encoded
/// query text is substituted.
pub open spec fn placeholder() -> Seq<char> {
    seq!['{', 'q', 'u', 'e', 'r', 'y', '}']
}

/// The first record in catalog order whose trigger is `t`.
pub open spec fn first_with_trigger(db: Seq<Bang>, t: Seq<char>) -> Bang
    decreases db.len(),
{
    if db.len() == 0 {
        arbitrary()
    } else if db[0].trigger@ == t {
        db[0]
    } else {
        first_with_trigger(db.drop_first(), t)
    }
}

/// A record at the first index bearing a trigger is the first record with
/// that trigger.
proof fn lemma_first_with_trigger(db: Seq<Bang>, t: Seq<char>, i: int)
    requires
        0 <= i < db.len(),
        db[i].trigger@ == t,
        forall|j: int| 0 <= j < i ==> db[j].trigger@ != t,
    ensures
        first_with_trigger(db, t) == db[i],
    decreases i,
{
    if i > 0 {
        assert(db[0].trigger@ != t);
        let rest = db.drop_first();
        assert(rest[i - 1] == db[i]);
        assert(forall|j: int| 0 <= j < i - 1 ==> rest[j] == db[j + 1]);
        lemma_first_with_trigger(rest, t, i - 1);
    }
}

/// The destination URLs an activation dispatches: for each trigger that
/// resolves in the catalog, in order, the first matching record's template
/// with the placeholder replaced by the encoded query; unresolved triggers
/// are skipped.
pub open spec fn activation_urls(
    db: Seq<Bang>,
    triggers: Seq<Seq<char>>,
    encoded: Seq<char>,
) -> Seq<Seq<char>>
    decreases triggers.len(),
{
    if triggers.len() == 0 {
        Seq::empty()
    } else {
        let prev = activation_urls(db, triggers.drop_last(), encoded);
        let t = triggers.last();
        if has_trigger(db, t) {
            prev.push(replace_spec(first_with_trigger(db, t).url@, placeholder(), encoded))
        } else {
            prev
        }
    }
}

/// What a search request leaves behind and emits. The new query replaces
/// the old one wholesale. With the final token an open shortcut, the
/// candidate trigger text is folded and searched, matches are announced
/// under identifiers counted from 1 in rank order and recorded in the
/// result table; otherwise (and when nothing matches) the synthetic finish
/// item stands alone in the table. Exactly one terminal marker ends the
/// response.
pub open spec fn search_post(pre: App, post: App, raw: Seq<char>, out: Seq<Response>) -> bool {
    let ts = tokenize(raw);
    &&& post.config == pre.config
    &&& post.db == pre.db
    &&& post.cache == pre.cache
    &&& views_of(post.search@) == ts
    &&& if last_token_open(ts) {
        let needle = lower_folded(ts.last().skip(1));
        let cm = capped_matches(
            pre.cache@,
            needle,
            pre.config.max_limit as int,
            pre.cache@.len() as int,
        );
        &&& views_of(post.results@) == Seq::new(cm.len(), |k: int| pre.db@[cm[k]].trigger@)
        &&& post.finish_only == (cm.len() == 0)
        &&& out.len() == (if cm.len() == 0 {
            2int
        } else {
            cm.len() + 1int
        })
        &&& forall|k: int|
            0 <= k < cm.len() ==> is_append(
                #[trigger] out[k],
                k + 1,
                name_spec(pre.db@[cm[k]]),
                description_spec(pre.db@[cm[k]]),
            )
        &&& (cm.len() == 0 ==> is_finish_item(out[0]))
        &&& out[out.len() - 1] is Finished
    } else {
        &&& post.results@.len() == 0
        &&& post.finish_only
        &&& out.len() == 2
        &&& is_finish_item(out[0])
        &&& out[1] is Finished
    }
}

/// What a complete request leaves behind and emits. With an identifier the
/// current result table knows, whose trigger the catalog resolves, the open
/// shortcut token is replaced by the selected trigger (indicator retained)
/// and one fill instruction carries the reconstructed query; on any stale
/// or unknown identifier nothing changes and nothing is emitted.
pub open spec fn complete_post(pre: App, post: App, id: u32, out: Seq<Response>) -> bool {
    &&& post.config == pre.config
    &&& post.db == pre.db
    &&& post.cache == pre.cache
    &&& post.results == pre.results
    &&& post.finish_only == pre.finish_only
    &&& if 1 <= id && id <= pre.results@.len() && has_trigger(pre.db@, pre.results@[id - 1]@) {
        let kept = if pre.search@.len() > 0 {
            views_of(pre.search@).drop_last()
        } else {
            views_of(pre.search@)
        };
        &&& views_of(post.search@) == kept.push(seq!['!'] + pre.results@[id - 1]@)
        &&& out.len() == 1
        &&& is_fill(out[0], join_tokens(views_of(post.search@)))
    } else {
        &&& post.search == pre.search
        &&& out.len() == 0
    }
}

/// What an activate request emits: the resolved destination URLs, the
/// shortcut triggers falling back to the configured defaults when the query
/// names none, and a single close instruction. The session state is not
/// touched.
pub open spec fn activate_post(s: App, urls: Seq<String>, out: Seq<Response>) -> bool {
    let ts = views_of(s.search@);
    let encoded = url_encoded(free_text(ts));
    let trs = shortcut_triggers(ts);
    let effective = if trs.len() == 0 {
        views_of(s.config.default_bangs@)
    } else {
        trs
    };
    &&& views_of(urls) == activation_urls(s.db@, effective, encoded)
    &&& out.len() == 1
    &&& out[0] is Close
}

/// The session context: catalog, derived index, current query tokens and
/// the request-scoped result table.
pub struct App {
    /// Plugin-specific configuration.
    pub config: AppConfig,
    /// The bangs catalog.
    pub db: Database,
    /// The search index derived from the catalog.
    pub cache: SearchIndex,
    /// The tokens of the current query, in input order.
    pub search: Vec<String>,
    /// The result table: identifier `i + 1` maps to the trigger at `i`.
    pub results: Vec<String>,
    /// Whether the table holds only the synthetic finish entry.
    pub finish_only: bool,
}

impl App {
    /// The index mirrors the catalog entry for entry.
    pub open spec fn wf(self) -> bool {
        matches_catalog(self.cache@, self.db@)
    }

    /// Builds a session: loads the catalog from the parsed records (sorted,
    /// and collapsed per URL when configured) and derives the search index
    /// from it, atomically with it.
    pub fn new(config: AppConfig, records: Vec<Bang>) -> (app: App)
        ensures
            app.wf(),
            app.config == config,
            sorted_desc(app.db@),
            config.unique_bangs ==> urls_distinct(app.db@),
            exists|sorted: Seq<Bang>|
                {
                    &&& sorted.to_multiset() == records@.to_multiset()
                    &&& sorted_desc(sorted)
                    &&& app.db@ == if config.unique_bangs {
                        crate::database::first_per_url(sorted)
                    } else {
                        sorted
                    }
                },
            app.search@.len() == 0,
            app.results@.len() == 0,
            !app.finish_only,
    {
        let unique = config.unique_bangs;
        let ghost records_view = records@;
        let db = Database::load(records, unique);
        let cache = SearchIndex::build(&db);
        let app = App {
            config,
            db,
            cache,
            search: Vec::new(),
            results: Vec::new(),
            finish_only: false,
        };
        proof {
            let sorted = choose|sorted: Seq<Bang>|
                {
                    &&& sorted.to_multiset() == records_view.to_multiset()
                    &&& sorted_desc(sorted)
                    &&& app.db@ == if unique {
                        crate::database::first_per_url(sorted)
                    } else {
                        sorted
                    }
                };
            assert({
                &&& sorted.to_multiset() == records_view.to_multiset()
                &&& sorted_desc(sorted)
                &&& app.db@ == if config.unique_bangs {
                    crate::database::first_per_url(sorted)
                } else {
                    sorted
                }
            });
        }
        app
    }

    /// True iff the final token is a shortcut token still being typed.
    pub fn last_token_is_open_shortcut(&self) -> (r: bool)
        ensures
            r == last_token_open(views_of(self.search@)),
    {
        let n = self.search.len();
        if n == 0 {
            false
        } else {
            token_is_shortcut(self.search[n - 1].as_str())
        }
    }

    /// The free-text part of the query: the tokens that name no shortcut,
    /// joined by single spaces in input order.
    pub fn get_search_query(&self) -> (q: String)
        ensures
            q@ == free_text(views_of(self.search@)),
    {
        let ghost vts = views_of(self.search@);
        let mut free: Vec<String> = Vec::new();
        let mut k: usize = 0;
        proof {
            assert(vts.take(0) =~= Seq::<Seq<char>>::empty());
            assert(views_of(free@) =~= crate::query::free_tokens(vts.take(0)));
        }
        while k < self.search.len()
            invariant
                vts == views_of(self.search@),
                k <= self.search@.len(),
                views_of(free@) == crate::query::free_tokens(vts.take(k as int)),
            decreases self.search@.len() - k,
        {
            proof {
                assert(vts.take(k + 1).drop_last() =~= vts.take(k as int));
                assert(vts.take(k + 1).last() == self.search@[k as int]@);
            }
            if !token_is_shortcut(self.search[k].as_str()) {
                let ghost old_free = free@;
                free.push(self.search[k].clone());
                proof {
                    assert(views_of(free@) =~= views_of(old_free).push(self.search@[k as int]@));
                }
            }
            k += 1;
        }
        proof {
            assert(vts.take(self.search@.len() as int) =~= vts);
        }
        join_spaced(&free)
    }

    /// The trigger texts of the query's shortcut tokens, in input order,
    /// indicator stripped.
    pub fn get_bangs_from_search_query(&self) -> (triggers: Vec<String>)
        ensures
            views_of(triggers@) == shortcut_triggers(views_of(self.search@)),
    {
        let ghost vts = views_of(self.search@);
        let mut triggers: Vec<String> = Vec::new();
        let mut k: usize = 0;
        proof {
            assert(vts.take(0) =~= Seq::<Seq<char>>::empty());
            assert(views_of(triggers@) =~= shortcut_triggers(vts.take(0)));
        }
        while k < self.search.len()
            invariant
                vts == views_of(self.search@),
                k <= self.search@.len(),
                views_of(triggers@) == shortcut_triggers(vts.take(k as int)),
            decreases self.search@.len() - k,
        {
            proof {
                assert(vts.take(k + 1).drop_last() =~= vts.take(k as int));
                assert(vts.take(k + 1).last() == self.search@[k as int]@);
            }
            let tok = &self.search[k];
            if token_is_shortcut(tok.as_str()) {
                let stripped = tok.as_str().substring_char(1, tok.as_str().unicode_len());
                let ghost old_triggers = triggers@;
                triggers.push(String::from_str(stripped));
                proof {
                    assert(stripped@ =~= self.search@[k as int]@.skip(1));
                    assert(views_of(triggers@) =~= views_of(old_triggers).push(
                        self.search@[k as int]@.skip(1),
                    ));
                }
            }
            k += 1;
        }
        proof {
            assert(vts.take(self.search@.len() as int) =~= vts);
        }
        triggers
    }

    /// Handles a search request: replace the query state, and either
    /// announce ranked suggestions for the open trigger candidate or emit
    /// the synthetic finish item; always end with the terminal marker.
    pub fn search(&mut self, raw: &str) -> (out: Vec<Response>)
        requires
            old(self).wf(),
            old(self).config.max_limit <= u32::MAX,
        ensures
            final(self).wf(),
            search_post(*old(self), *final(self), raw@, out@),
    {
        let ghost pre = *old(self);
        let tokens = tokenize_str(raw);
        self.search = tokens;
        let mut out: Vec<Response> = Vec::new();
        if self.last_token_is_open_shortcut() {
            let n = self.search.len();
            let last = &self.search[n - 1];
            let candidate = last.as_str().substring_char(1, last.as_str().unicode_len());
            proof {
                assert(candidate@ =~= views_of(self.search@).last().skip(1));
            }
            let folded = fold_case(candidate);
            let limit = self.config.max_limit;
            let ids = self.cache.search_ids(folded.as_str(), limit);
            let ghost cm = capped_matches(
                self.cache@,
                folded@,
                limit as int,
                self.cache@.len() as int,
            );
            proof {
                lemma_search_sound_complete(self.cache@, folded@, limit as int);
            }
            let mut results: Vec<String> = Vec::new();
            let mut k: usize = 0;
            while k < ids.len()
                invariant
                    self.db@ == pre.db@,
                    matches_catalog(self.cache@, self.db@),
                    cm == capped_matches(
                        self.cache@,
                        folded@,
                        limit as int,
                        self.cache@.len() as int,
                    ),
                    ids@.len() == cm.len() <= limit,
                    limit <= u32::MAX,
                    forall|j: int| 0 <= j < ids@.len() ==> #[trigger] ids@[j] as int == cm[j],
                    forall|j: int| 0 <= j < cm.len() ==> 0 <= #[trigger] cm[j] < self.cache@.len(),
                    k <= ids@.len(),
                    out@.len() == k,
                    results@.len() == k,
                    forall|j: int|
                        0 <= j < k ==> is_append(
                            #[trigger] out@[j],
                            j + 1,
                            name_spec(self.db@[cm[j]]),
                            description_spec(self.db@[cm[j]]),
                        ),
                    forall|j: int|
                        0 <= j < k ==> (#[trigger] results@[j])@ == self.db@[cm[j]].trigger@,
                decreases ids@.len() - k,
            {
                let idx = ids[k];
                let records = self.db.iter();
                let id_num: u32 = (k as u32) + 1;
                out.push(
                    Response::Append {
                        id: id_num,
                        name: records[idx].name(),
                        description: records[idx].description(),
                    },
                );
                results.push(records[idx].trigger.clone());
                k += 1;
            }
            let none_found = results.len() == 0;
            if none_found {
                out.push(finish_item());
            }
            self.results = results;
            self.finish_only = none_found;
            out.push(Response::Finished);
            proof {
                assert(views_of(self.results@) =~= Seq::new(
                    cm.len(),
                    |j: int| pre.db@[cm[j]].trigger@,
                ));
            }
        } else {
            out.push(finish_item());
            self.results = Vec::new();
            self.finish_only = true;
            out.push(Response::Finished);
        }
        out
    }

    /// Handles a complete request: with a known identifier whose trigger
    /// resolves, close the open shortcut token to the selected trigger and
    /// emit the fill instruction; otherwise do nothing.
    pub fn complete(&mut self, id: u32) -> (out: Vec<Response>)
        requires
            old(self).wf(),
        ensures
            final(self).wf(),
            complete_post(*old(self), *final(self), id, out@),
    {
        let ghost pre = *old(self);
        let mut out: Vec<Response> = Vec::new();
        if id >= 1 && (id as usize) <= self.results.len() {
            let trigger = &self.results[(id as usize) - 1];
            let found = self.db.get(trigger.as_str());
            match found {
                Option::Some(bang) => {
                    let mut tok = String::from_str("!");
                    tok.append(bang.trigger.as_str());
                    proof {
                        reveal_strlit("!");
                        assert("!"@ =~= seq!['!']);
                        assert(tok@ == seq!['!'] + pre.results@[id - 1]@);
                    }
                    let ghost old_search = self.search@;
                    if self.search.len() > 0 {
                        let _ = self.search.pop();
                    }
                    self.search.push(tok);
                    proof {
                        let kept = if pre.search@.len() > 0 {
                            views_of(pre.search@).drop_last()
                        } else {
                            views_of(pre.search@)
                        };
                        assert(views_of(self.search@) =~= kept.push(
                            seq!['!'] + pre.results@[id - 1]@,
                        ));
                    }
                    let text = join_spaced(&self.search);
                    out.push(Response::Fill(text));
                },
                Option::None => {},
            }
        }
        out
    }

    /// Handles an activate request: resolve the query's shortcut triggers
    /// (falling back to the configured defaults when it names none),
    /// substitute the encoded free text into each resolved template, and
    /// ask for the session to close. Unresolved triggers are skipped.
    pub fn activate(&self, _id: u32) -> (r: (Vec<String>, Vec<Response>))
        ensures
            activate_post(*self, r.0@, r.1@),
    {
        let ghost vts = views_of(self.search@);
        let query = self.get_search_query();
        let encoded = encode_query(query.as_str());
        let mut triggers = self.get_bangs_from_search_query();
        if triggers.len() == 0 {
            triggers = clone_string_vec(&self.config.default_bangs);
        }
        let ghost effective = views_of(triggers@);
        let placeholder_text = "{query}";
        proof {
            reveal_strlit("{query}");
            assert(placeholder_text@ =~= placeholder());
        }
        let mut urls: Vec<String> = Vec::new();
        let mut k: usize = 0;
        proof {
            assert(effective.take(0) =~= Seq::<Seq<char>>::empty());
            assert(views_of(urls@) =~= activation_urls(self.db@, effective.take(0), encoded@));
        }
        while k < triggers.len()
            invariant
                effective == views_of(triggers@),
                k <= triggers@.len(),
                encoded@ == url_encoded(free_text(views_of(self.search@))),
                placeholder_text@ == placeholder(),
                views_of(urls@) == activation_urls(self.db@, effective.take(k as int), encoded@),
            decreases triggers@.len() - k,
        {
            proof {
                assert(effective.take(k + 1).drop_last() =~= effective.take(k as int));
                assert(effective.take(k + 1).last() == triggers@[k as int]@);
            }
            let found = self.db.get(triggers[k].as_str());
            match found {
                Option::Some(bang) => {
                    proof {
                        let t = triggers@[k as int]@;
                        let i = choose|i: int|
                            {
                                &&& 0 <= i < self.db@.len()
                                &&& self.db@[i] == *bang
                                &&& self.db@[i].trigger@ == t
                                &&& forall|j: int| 0 <= j < i ==> self.db@[j].trigger@ != t
                            };
                        lemma_first_with_trigger(self.db@, t, i);
                    }
                    let url = replace_text(bang.url.as_str(), placeholder_text, encoded.as_str());
                    let ghost old_urls = urls@;
                    urls.push(url);
                    proof {
                        assert(views_of(urls@) =~= views_of(old_urls).push(
                            replace_spec(
                                first_with_trigger(self.db@, triggers@[k as int]@).url@,
                                placeholder(),
                                encoded@,
                            ),
                        ));
                    }
                },
                Option::None => {},
            }
            k += 1;
        }
        proof {
            assert(effective.take(triggers@.len() as int) =~= effective);
        }
        let mut responses: Vec<Response> = Vec::new();
        responses.push(Response::Close);
        (urls, responses)
    }

    /// Dispatches one request to its handler; unknown requests are ignored
    /// and an exit request only signals the caller.
    pub fn handle(&mut self, request: Request) -> (out: Output)
        requires
            old(self).wf(),
            old(self).config.max_limit <= u32::MAX,
        ensures
            final(self).wf(),
            match request {
                Request::Search(q) => {
                    &&& search_post(*old(self), *final(self), q@, out.responses@)
                    &&& out.open_urls@.len() == 0
                    &&& !out.exit
                },
                Request::Complete(id) => {
                    &&& complete_post(*old(self), *final(self), id, out.responses@)
                    &&& out.open_urls@.len() == 0
                    &&& !out.exit
                },
                Request::Activate(id) => {
                    &&& *final(self) == *old(self)
                    &&& activate_post(*old(self), out.open_urls@, out.responses@)
                    &&& !out.exit
                },
                Request::Exit => {
                    &&& *final(self) == *old(self)
                    &&& out.responses@.len() == 0
                    &&& out.open_urls@.len() == 0
                    &&& out.exit
                },
                Request::Other => {
                    &&& *final(self) == *old(self)
                    &&& out.responses@.len() == 0
                    &&& out.open_urls@.len() == 0
                    &&& !out.exit
                },
            },
    {
        match request {
            Request::Search(q) => {
                let responses = self.search(q.as_str());
                Output { responses, open_urls: Vec::new(), exit: false }
            },
            Request::Complete(id) => {
                let responses = self.complete(id);
                Output { responses, open_urls: Vec::new(), exit: false }
            },
            Request::Activate(id) => {
                let (open_urls, responses) = self.activate(id);
                Output { responses, open_urls, exit: false }
            },
            Request::Exit => Output { responses: Vec::new(), open_urls: Vec::new(), exit: true },
            Request::Other => Output { responses: Vec::new(), open_urls: Vec::new(), exit: false },
        }
    }
}

/// A character-for-character copy of a list of strings.
fn clone_string_vec(v: &Vec<String>) -> (r: Vec<String>)
    ensures
        views_of(r@) == views_of(v@),
{
    let mut r: Vec<String> = Vec::new();
    let mut k: usize = 0;
    while k < v.len()
        invariant
            k <= v@.len(),
            r@.len() == k,
            forall|j: int| 0 <= j < k ==> (#[trigger] r@[j])@ == v@[j]@,
        decreases v@.len() - k,
    {
        r.push(v[k].clone());
        k += 1;
    }
    proof {
        assert(views_of(r@) =~= views_of(v@));
    }
    r
}

} // verus!
