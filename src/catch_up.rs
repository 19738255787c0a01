//! Replaying chat history missed while the process was down.
//!
//! The history is fetched outside the library one page at a time, newest
//! message first; each page is handed here, and the messages of a page are
//! scored oldest first, as they would have been live.

use vstd::prelude::*;
use crate::game::{evaluate, game_wf, ChatMessage, GameView, MessageView, NameGame};

verus! {

/// One message of the chat history.
#[derive(Clone, Debug)]
pub struct HistoryMessage {
    pub id: u64,
    pub author_id: u64,
    /// Whether the game's own bot wrote it; such messages never score.
    pub from_bot: bool,
    pub message: ChatMessage,
}

pub struct HistoryView {
    pub id: u64,
    pub author_id: u64,
    pub from_bot: bool,
    pub message: MessageView,
}

impl View for HistoryMessage {
    type V = HistoryView;

    open spec fn view(&self) -> HistoryView {
        HistoryView { id: self.id, author_id: self.author_id, from_bot: self.from_bot, message: self.message@ }
    }
}

/// The nickname of `author` in a cache of (author, nickname) pairs: the first
/// pair for it.
pub open spec fn lookup(entries: Seq<(u64, Seq<char>)>, author: u64) -> Option<Seq<char>>
    decreases entries.len(),
{
    if entries.len() == 0 {
        None
    } else {
        match lookup(entries.drop_last(), author) {
            Some(n) => Some(n),
            None => if entries.last().0 == author {
                Some(entries.last().1)
            } else {
                None
            },
        }
    }
}

/// One history message scored against the game, when a bot did not write it
/// and its author's nickname is known.
pub open spec fn replay_one(g: GameView, h: HistoryView, nicks: Seq<(u64, Seq<char>)>) -> GameView {
    if !h.from_bot && lookup(nicks, h.author_id) is Some {
        evaluate(g, h.message, lookup(nicks, h.author_id)->0).0
    } else {
        g
    }
}

/// A page, newest message first, scored oldest first.
pub open spec fn replay(g: GameView, page: Seq<HistoryView>, nicks: Seq<(u64, Seq<char>)>) -> GameView
    decreases page.len(),
{
    if page.len() == 0 {
        g
    } else {
        replay_one(replay(g, page.subrange(1, page.len() as int), nicks), page[0], nicks)
    }
}

pub open spec fn history_view(page: Seq<HistoryMessage>) -> Seq<HistoryView> {
    page.map_values(|h: HistoryMessage| h@)
}

/// The state of one catch-up run: where the history read has got to, and
/// the nicknames resolved so far.
pub struct CatchUp {
    pub cursor: u64,
    /// Authors and their nicknames, in the order they were resolved.
    pub nicknames: Vec<(u64, String)>,
    /// The game as the run found it.
    pub start: Ghost<GameView>,
    /// The pages taken so far, in the order they were fetched.
    pub pages: Ghost<Seq<Seq<HistoryView>>>,
    /// The nicknames known when each page was taken.
    pub page_nicks: Ghost<Seq<Seq<(u64, Seq<char>)>>>,
}

impl CatchUp {
    pub open spec fn nicks(&self) -> Seq<(u64, Seq<char>)> {
        self.nicknames@.map_values(|e: (u64, String)| (e.0, e.1@))
    }

    /// `game` is what the pages taken so far made of the game the run found,
    /// and the cursor stands after them.
    pub open spec fn tracks(&self, game: GameView) -> bool {
        &&& self.page_nicks@.len() == self.pages@.len()
        &&& game == replay_run(self.start@, self.pages@, self.page_nicks@)
        &&& self.cursor == run_cursor(self.start@.last_message_id, self.pages@)
    }

    /// A run that reads the history after the game's last processed message.
    pub fn start(game: &NameGame) -> (r: CatchUp)
        ensures
            r.cursor == game.last_message_id,
            r.nicks().len() == 0,
            r.start@ == game@,
            r.pages@.len() == 0,
            r.tracks(game@),
    {
        CatchUp {
            cursor: game.last_message_id,
            nicknames: Vec::new(),
            start: Ghost(game@),
            pages: Ghost(Seq::empty()),
            page_nicks: Ghost(Seq::empty()),
        }
    }

    /// The nickname resolved for `author` in this run, if any.
    pub fn nickname(&self, author: u64) -> (r: Option<String>)
        ensures
            match r {
                Some(n) => lookup(self.nicks(), author) == Some(n@),
                None => lookup(self.nicks(), author) is None,
            },
    {
        let n = self.nicknames.len();
        let mut i: usize = 0;
        while i < n
            invariant
                n == self.nicknames.len(),
                i <= n,
                lookup(self.nicks().take(i as int), author) is None,
            decreases n - i,
        {
            assert(self.nicks().take(i + 1).drop_last() =~= self.nicks().take(i as int));
            if self.nicknames[i].0 == author {
                let found = self.nicknames[i].1.clone();
                proof {
                    lemma_lookup_extend(self.nicks(), author, i as int + 1);
                }
                return Some(found);
            }
            i = i + 1;
        }
        assert(self.nicks().take(n as int) =~= self.nicks());
        None
    }

    /// Whether the author of `entry` must have a nickname resolved before the
    /// entry can be scored: a bot did not write it and none is known yet.
    pub fn needs_nickname(&self, entry: &HistoryMessage) -> (r: bool)
        ensures
            r == (!entry.from_bot && lookup(self.nicks(), entry.author_id) is None),
    {
        if entry.from_bot {
            return false;
        }
        self.nickname(entry.author_id).is_none()
    }

    /// Records the nickname resolved for `author`; a nickname already known
    /// for it is kept.
    pub fn remember_nickname(&mut self, author: u64, nickname: String)
        ensures
            final(self).cursor == old(self).cursor,
            final(self).start == old(self).start,
            final(self).pages == old(self).pages,
            final(self).page_nicks == old(self).page_nicks,
            lookup(old(self).nicks(), author) is None ==> final(self).nicks() == old(self).nicks().push(
                (author, nickname@),
            ),
            lookup(old(self).nicks(), author) is Some ==> final(self).nicks() == old(self).nicks(),
            lookup(final(self).nicks(), author) is Some,
    {
        if self.nickname(author).is_none() {
            let ghost before = self.nicks();
            let ghost name = nickname@;
            self.nicknames.push((author, nickname));
            assert(self.nicks() =~= before.push((author, name)));
            assert(self.nicks().drop_last() =~= before);
        }
    }

    /// Scores one page of history, as fetched after the cursor, newest
    /// message first. An empty page means the history is exhausted: it
    /// returns false and changes nothing. Otherwise the cursor moves to the
    /// page's newest message and it returns true.
    pub fn take_page(&mut self, game: &mut NameGame, page: &Vec<HistoryMessage>) -> (r: bool)
        requires
            game_wf(old(game)@),
        ensures
            game_wf(final(game)@),
            r == (page.len() > 0),
            final(game)@ == replay(old(game)@, history_view(page@), old(self).nicks()),
            final(self).nicks() == old(self).nicks(),
            final(self).cursor == if page.len() > 0 { page@[0].id } else { old(self).cursor },
            final(self).start == old(self).start,
            final(self).pages@ == old(self).pages@.push(history_view(page@)),
            final(self).page_nicks@ == old(self).page_nicks@.push(old(self).nicks()),
            old(self).tracks(old(game)@) ==> final(self).tracks(final(game)@),
    {
        let n = page.len();
        let ghost taken = self.pages@.push(history_view(page@));
        let ghost known = self.page_nicks@.push(self.nicks());
        proof {
            assert(taken.drop_last() =~= self.pages@);
            assert(known.drop_last() =~= self.page_nicks@);
        }
        if n == 0 {
            proof {
                self.pages = Ghost(taken);
                self.page_nicks = Ghost(known);
            }
            return false;
        }
        let ghost pv = history_view(page@);
        let mut i: usize = n;
        while i > 0
            invariant
                n == page.len(),
                i <= n,
                pv == history_view(page@),
                game_wf(game@),
                game@ == replay(old(game)@, pv.subrange(i as int, n as int), self.nicks()),
            decreases i,
        {
            i = i - 1;
            let entry = &page[i];
            assert(pv.subrange(i as int, n as int).subrange(1, n - i) =~= pv.subrange(i + 1, n as int));
            assert(pv[i as int] == entry@);
            if !entry.from_bot {
                match self.nickname(entry.author_id) {
                    Some(name) => {
                        game.check_message_for_point(&entry.message, name.as_str());
                    },
                    None => {},
                }
            }
        }
        assert(pv.subrange(0, n as int) =~= pv);
        self.cursor = page[0].id;
        proof {
            self.pages = Ghost(taken);
            self.page_nicks = Ghost(known);
        }
        true
    }

    /// Ends the run: the game's cursor moves to the last message read.
    pub fn finish(&self, game: &mut NameGame)
        ensures
            final(game)@.names == old(game)@.names,
            final(game)@.players == old(game)@.players,
            final(game)@.last_message_channel_id == old(game)@.last_message_channel_id,
            final(game)@.last_message_id == self.cursor,
            self.tracks(old(game)@) ==> final(game)@ == catch_up_result(self.start@, self.pages@, self.page_nicks@),
    {
        game.last_message_id = self.cursor;
    }
}

/// Once an author is found in a prefix of the cache, the whole cache finds
/// the same nickname.
proof fn lemma_lookup_extend(s: Seq<(u64, Seq<char>)>, author: u64, n: int)
    requires
        0 < n <= s.len(),
        s[n - 1].0 == author,
        lookup(s.take(n - 1), author) is None,
    ensures
        lookup(s, author) == Some(s[n - 1].1),
    decreases s.len() - n,
{
    assert(s.take(n).drop_last() =~= s.take(n - 1));
    if n == s.len() {
        assert(s.take(n) =~= s);
    } else {
        lemma_lookup_prefix(s, author, n);
    }
}

proof fn lemma_lookup_prefix(s: Seq<(u64, Seq<char>)>, author: u64, n: int)
    requires
        0 < n <= s.len(),
        lookup(s.take(n), author) is Some,
    ensures
        lookup(s, author) == lookup(s.take(n), author),
    decreases s.len() - n,
{
    if n == s.len() {
        assert(s.take(n) =~= s);
    } else {
        assert(s.take(n + 1).drop_last() =~= s.take(n));
        lemma_lookup_prefix(s, author, n + 1);
    }
}

/// Scoring depends on the names and players alone, never on the history
/// cursor: two states that agree on names and players agree on them again
/// after the same message.
pub proof fn evaluate_ignores_cursor(g1: GameView, g2: GameView, m: MessageView, who: Seq<char>)
    requires
        g1.names == g2.names,
        g1.players == g2.players,
    ensures
        evaluate(g1, m, who).0.names == evaluate(g2, m, who).0.names,
        evaluate(g1, m, who).0.players == evaluate(g2, m, who).0.players,
        evaluate(g1, m, who).1 == evaluate(g2, m, who).1,
{
}

/// Replaying the same page of history with the same nicknames from states
/// that agree on names and players yields the same names and players: a
/// catch-up run that is repeated from the same starting point ends in the
/// same game.
pub proof fn replay_is_repeatable(
    g1: GameView,
    g2: GameView,
    page: Seq<HistoryView>,
    nicks: Seq<(u64, Seq<char>)>,
)
    requires
        g1.names == g2.names,
        g1.players == g2.players,
    ensures
        replay(g1, page, nicks).names == replay(g2, page, nicks).names,
        replay(g1, page, nicks).players == replay(g2, page, nicks).players,
    decreases page.len(),
{
    if page.len() > 0 {
        let rest = page.subrange(1, page.len() as int);
        replay_is_repeatable(g1, g2, rest, nicks);
        let h = page[0];
        if !h.from_bot && lookup(nicks, h.author_id) is Some {
            evaluate_ignores_cursor(
                replay(g1, rest, nicks),
                replay(g2, rest, nicks),
                h.message,
                lookup(nicks, h.author_id)->0,
            );
        }
    }
}

/// A whole run of pages, in the order they were fetched, each scored with
/// the nicknames known when it was taken.
pub open spec fn replay_run(
    g: GameView,
    pages: Seq<Seq<HistoryView>>,
    nicks: Seq<Seq<(u64, Seq<char>)>>,
) -> GameView
    decreases pages.len(),
{
    if pages.len() == 0 || nicks.len() != pages.len() {
        g
    } else {
        replay(replay_run(g, pages.drop_last(), nicks.drop_last()), pages.last(), nicks.last())
    }
}

/// Where the cursor stands after a run: at the newest message of the last
/// page that held any, else where the run started.
pub open spec fn run_cursor(start: u64, pages: Seq<Seq<HistoryView>>) -> u64
    decreases pages.len(),
{
    if pages.len() == 0 {
        start
    } else if pages.last().len() > 0 {
        pages.last()[0].id
    } else {
        run_cursor(start, pages.drop_last())
    }
}

/// The game at the end of a catch-up run: every page replayed, then the
/// cursor moved past the last message read.
pub open spec fn catch_up_result(
    g: GameView,
    pages: Seq<Seq<HistoryView>>,
    nicks: Seq<Seq<(u64, Seq<char>)>>,
) -> GameView {
    GameView { last_message_id: run_cursor(g.last_message_id, pages), ..replay_run(g, pages, nicks) }
}

/// A catch-up run repeated from the same starting point, over the same
/// history and with the same nicknames resolved, ends in the same names,
/// players and cursor, however the history is split into pages.
pub proof fn catch_up_is_repeatable(
    g1: GameView,
    g2: GameView,
    pages: Seq<Seq<HistoryView>>,
    nicks: Seq<Seq<(u64, Seq<char>)>>,
)
    requires
        g1.names == g2.names,
        g1.players == g2.players,
        g1.last_message_id == g2.last_message_id,
    ensures
        catch_up_result(g1, pages, nicks).names == catch_up_result(g2, pages, nicks).names,
        catch_up_result(g1, pages, nicks).players == catch_up_result(g2, pages, nicks).players,
        catch_up_result(g1, pages, nicks).last_message_id == catch_up_result(g2, pages, nicks).last_message_id,
{
    lemma_replay_run_repeatable(g1, g2, pages, nicks);
}

proof fn lemma_replay_run_repeatable(
    g1: GameView,
    g2: GameView,
    pages: Seq<Seq<HistoryView>>,
    nicks: Seq<Seq<(u64, Seq<char>)>>,
)
    requires
        g1.names == g2.names,
        g1.players == g2.players,
    ensures
        replay_run(g1, pages, nicks).names == replay_run(g2, pages, nicks).names,
        replay_run(g1, pages, nicks).players == replay_run(g2, pages, nicks).players,
    decreases pages.len(),
{
    if pages.len() > 0 && nicks.len() == pages.len() {
        lemma_replay_run_repeatable(g1, g2, pages.drop_last(), nicks.drop_last());
        replay_is_repeatable(
            replay_run(g1, pages.drop_last(), nicks.drop_last()),
            replay_run(g2, pages.drop_last(), nicks.drop_last()),
            pages.last(),
            nicks.last(),
        );
    }
}

} // verus!
