//! The game state and the scoring engine that evaluates one message against it.

use vstd::prelude::*;
use crate::text::{
    byte_len, contains_seq, is_plain_word, lower_of, lowercase, regex_finds_either, text_contains,
    upper_of, uppercase,
};
use crate::time::{same_hour, Timestamp};

verus! {

/// How many bytes a message must hold beyond the name it mentions.
pub const MIN_MESSAGE_LENGTH: usize = 5;

/// A configured name, with the points each player has for it.
#[derive(Clone, Debug)]
pub struct NameGameName {
    pub name: String,
    /// One entry per player, indexed by player index.
    pub player_points: Vec<u64>,
    /// When this name last earned a point; the epoch when it never has.
    pub last_point_time: Timestamp,
}

pub struct NameView {
    pub text: Seq<char>,
    pub points: Seq<u64>,
    pub last_point_time: Timestamp,
}

impl View for NameGameName {
    type V = NameView;

    open spec fn view(&self) -> NameView {
        NameView {
            text: self.name@,
            points: self.player_points@,
            last_point_time: self.last_point_time,
        }
    }
}

/// The whole persisted state of the game.
#[derive(Clone, Debug)]
pub struct NameGame {
    /// In display order.
    pub names: Vec<NameGameName>,
    /// Player display names; a player's position here is its index.
    pub players: Vec<String>,
    pub last_message_channel_id: u64,
    pub last_message_id: u64,
}

pub struct GameView {
    pub names: Seq<NameView>,
    pub players: Seq<Seq<char>>,
    pub last_message_channel_id: u64,
    pub last_message_id: u64,
}

pub open spec fn names_view(v: Seq<NameGameName>) -> Seq<NameView> {
    v.map_values(|n: NameGameName| n@)
}

pub open spec fn players_view(v: Seq<String>) -> Seq<Seq<char>> {
    v.map_values(|p: String| p@)
}

impl View for NameGame {
    type V = GameView;

    open spec fn view(&self) -> GameView {
        GameView {
            names: names_view(self.names@),
            players: players_view(self.players@),
            last_message_channel_id: self.last_message_channel_id,
            last_message_id: self.last_message_id,
        }
    }
}

/// Every name holds exactly one point entry per player.
pub open spec fn game_wf(g: GameView) -> bool {
    forall|k: int| 0 <= k < g.names.len() ==> (#[trigger] g.names[k]).points.len() == g.players.len()
}

/// A chat message as the scoring engine sees it.
#[derive(Clone, Debug)]
pub struct ChatMessage {
    pub content: String,
    /// The text of the message this one replies to, if any.
    pub replied_content: Option<String>,
    pub timestamp: Timestamp,
    /// When the message was last edited, if ever.
    pub edited_timestamp: Option<Timestamp>,
}

pub struct MessageView {
    pub content: Seq<char>,
    pub replied_content: Option<Seq<char>>,
    pub timestamp: Timestamp,
    pub edited_timestamp: Option<Timestamp>,
}

impl View for ChatMessage {
    type V = MessageView;

    open spec fn view(&self) -> MessageView {
        MessageView {
            content: self.content@,
            replied_content: match self.replied_content {
                Some(s) => Some(s@),
                None => None,
            },
            timestamp: self.timestamp,
            edited_timestamp: self.edited_timestamp,
        }
    }
}

/// The outcome of a message that earned a point.
#[derive(Clone, Copy, Debug, PartialEq, Eq, Structural)]
pub struct NameScore {
    pub name_index: usize,
    pub player_index: usize,
}

pub open spec fn poang_word() -> Seq<char> {
    seq!['p', 'o', 'ä', 'n', 'g']
}

pub open spec fn point_word() -> Seq<char> {
    seq!['p', 'o', 'i', 'n', 't']
}

/// Whether a (lower-cased) text speaks of the scoring word itself.
pub open spec fn speaks_of_points(s: Seq<char>) -> bool {
    contains_seq(s, poang_word()) || contains_seq(s, point_word())
}

/// A message that, or whose replied-to message, speaks of points in any case earns nothing.
pub open spec fn disqualified(m: MessageView) -> bool {
    speaks_of_points(lower_of(m.content)) || (m.replied_content matches Some(r) && speaks_of_points(
        lower_of(r),
    ))
}

/// The time a message counts at: its last edit, else when it was sent.
pub open spec fn effective_time(m: MessageView) -> Timestamp {
    match m.edited_timestamp {
        Some(t) => t,
        None => m.timestamp,
    }
}

/// The message mentions the name as written or fully upper-cased, and holds
/// more than `MIN_MESSAGE_LENGTH` bytes beyond it.
pub open spec fn is_candidate(content: Seq<char>, name: Seq<char>) -> bool {
    is_candidate_with(content, name, upper_of(name))
}

/// Name `k` is a candidate for the message and no other name is.
pub open spec fn sole_candidate(names: Seq<NameView>, content: Seq<char>, k: int) -> bool {
    &&& 0 <= k < names.len()
    &&& is_candidate(content, names[k].text)
    &&& forall|j: int| 0 <= j < names.len() && j != k ==> !is_candidate(content, #[trigger] names[j].text)
}

/// The name a message earns a point for, if any.
pub open spec fn scored_name(g: GameView, m: MessageView) -> Option<int> {
    if disqualified(m) {
        None
    } else if exists|k: int| sole_candidate(g.names, m.content, k) {
        let k = choose|k: int| sole_candidate(g.names, m.content, k);
        if same_hour(effective_time(m), g.names[k].last_point_time) {
            None
        } else {
            Some(k)
        }
    } else {
        None
    }
}

/// Index of the first occurrence of `x` in `s`, or -1.
pub open spec fn position_of(s: Seq<Seq<char>>, x: Seq<char>) -> int
    decreases s.len(),
{
    if s.len() == 0 {
        -1
    } else {
        let p = position_of(s.drop_last(), x);
        if p >= 0 {
            p
        } else if s.last() == x {
            s.len() - 1
        } else {
            -1
        }
    }
}

/// The game with `who` as a player: unchanged if already there; else appended,
/// with a zero point entry for it under every name.
pub open spec fn with_player(g: GameView, who: Seq<char>) -> GameView {
    if position_of(g.players, who) >= 0 {
        g
    } else {
        GameView {
            names: g.names.map_values(|n: NameView| NameView { points: n.points.push(0), ..n }),
            players: g.players.push(who),
            ..g
        }
    }
}

/// The player index of `who` once it is a player.
pub open spec fn player_slot(g: GameView, who: Seq<char>) -> int {
    if position_of(g.players, who) >= 0 {
        position_of(g.players, who)
    } else {
        g.players.len() as int
    }
}

pub open spec fn bump(p: u64) -> u64 {
    if p < u64::MAX { (p + 1) as u64 } else { p }
}

/// Name `k` gains a point for player `p` at time `t`.
pub open spec fn award(g: GameView, k: int, p: int, t: Timestamp) -> GameView {
    GameView {
        names: g.names.update(
            k,
            NameView {
                points: g.names[k].points.update(p, bump(g.names[k].points[p])),
                last_point_time: t,
                ..g.names[k]
            },
        ),
        ..g
    }
}

/// The state after `who` sends message `m`, and the score it earned.
pub open spec fn evaluate(g: GameView, m: MessageView, who: Seq<char>) -> (GameView, Option<(int, int)>) {
    match scored_name(g, m) {
        None => (g, None),
        Some(k) => {
            let g2 = with_player(g, who);
            let p = player_slot(g, who);
            (award(g2, k, p, effective_time(m)), Some((k, p)))
        },
    }
}

pub open spec fn score_view(r: Option<NameScore>) -> Option<(int, int)> {
    match r {
        Some(s) => Some((s.name_index as int, s.player_index as int)),
        None => None,
    }
}

/// Whether an already lower-cased text speaks of the scoring word, in either language.
pub fn speaks_of_points_in(lower: &str) -> (r: bool)
    ensures
        r == speaks_of_points(lower@),
{
    proof {
        reveal_strlit("poäng");
        reveal_strlit("point");
        assert("poäng"@ =~= poang_word());
        assert("point"@ =~= point_word());
    }
    regex_finds_either("poäng", "point", lower)
}

/// Whether a text speaks of the scoring word, in either language, once lower-cased.
fn lower_text_speaks_of_points(text: &str) -> (r: bool)
    ensures
        r == speaks_of_points(lower_of(text@)),
{
    let lower = lowercase(text);
    speaks_of_points_in(lower.as_str())
}

/// The message mentions `name` as written or as `upper`, and holds more
/// than `MIN_MESSAGE_LENGTH` bytes beyond `name`.
pub open spec fn is_candidate_with(content: Seq<char>, name: Seq<char>, upper: Seq<char>) -> bool {
    &&& contains_seq(content, name) || contains_seq(content, upper)
    &&& byte_len(content) > byte_len(name) + MIN_MESSAGE_LENGTH
}

/// Whether a message is a candidate for a name, given the name's upper-cased form.
pub fn is_candidate_text(content: &str, name: &str, upper: &str) -> (r: bool)
    ensures
        r == is_candidate_with(content@, name@, upper@),
{
    let mentioned = text_contains(content, name) || text_contains(content, upper);
    let content_len = content.as_bytes().len();
    let name_len = name.as_bytes().len();
    mentioned && content_len > name_len && content_len - name_len > MIN_MESSAGE_LENGTH
}

/// Whether the message, or the message it replies to, speaks of points.
pub fn is_message_disqualified(message: &ChatMessage) -> (r: bool)
    ensures
        r == disqualified(message@),
{
    if lower_text_speaks_of_points(message.content.as_str()) {
        return true;
    }
    match &message.replied_content {
        Some(replied) => lower_text_speaks_of_points(replied.as_str()),
        None => false,
    }
}

impl ChatMessage {
    /// The time the message counts at: its last edit, else when it was sent.
    pub fn effective_timestamp(&self) -> (r: Timestamp)
        ensures
            r == effective_time(self@),
    {
        match self.edited_timestamp {
            Some(t) => t,
            None => self.timestamp,
        }
    }
}

impl NameGameName {
    /// A name that no player has points for yet and that was never scored.
    pub fn new(name: &str) -> (r: NameGameName)
        ensures
            r@.text == name@,
            r@.points.len() == 0,
            r@.last_point_time.seconds == 0,
    {
        NameGameName {
            name: name.to_owned(),
            player_points: Vec::new(),
            last_point_time: Timestamp::epoch(),
        }
    }
}

impl NameGame {
    pub open spec fn wf(&self) -> bool {
        game_wf(self@)
    }

    /// A game with no names, no players and the cursor at zero.
    pub fn new() -> (r: NameGame)
        ensures
            r@.names.len() == 0,
            r@.players.len() == 0,
            r@.last_message_channel_id == 0,
            r@.last_message_id == 0,
            r.wf(),
    {
        NameGame {
            names: Vec::new(),
            players: Vec::new(),
            last_message_channel_id: 0,
            last_message_id: 0,
        }
    }

    /// Whether the message is a candidate for name `k`.
    fn is_candidate_name(&self, message: &ChatMessage, k: usize) -> (r: bool)
        requires
            k < self.names.len(),
        ensures
            r == is_candidate(message@.content, self@.names[k as int].text),
    {
        let name = &self.names[k];
        let upper = uppercase(name.name.as_str());
        assert(self@.names[k as int] == self.names@[k as int]@);
        is_candidate_text(message.content.as_str(), name.name.as_str(), upper.as_str())
    }

    /// The one name the message is a candidate for, unless that name already
    /// earned a point in the same calendar hour as `timestamp`.
    pub fn find_scored_name(&self, message: &ChatMessage, timestamp: Timestamp) -> (r: Option<usize>)
        ensures
            match r {
                Some(k) => sole_candidate(self@.names, message@.content, k as int) && !same_hour(
                    timestamp,
                    self@.names[k as int].last_point_time,
                ),
                None => forall|k: int|
                    sole_candidate(self@.names, message@.content, k) ==> same_hour(
                        timestamp,
                        self@.names[k].last_point_time,
                    ),
            },
    {
        let n = self.names.len();
        let mut found: Option<usize> = None;
        let mut count: usize = 0;
        let mut i: usize = 0;
        while i < n
            invariant
                n == self.names.len(),
                i <= n,
                count <= i,
                count == 0 <==> found is None,
                count == 0 ==> forall|j: int| 0 <= j < i ==> !is_candidate(
                    message@.content,
                    #[trigger] self@.names[j].text,
                ),
                count == 1 ==> (found matches Some(f) && f < i && is_candidate(
                    message@.content,
                    self@.names[f as int].text,
                ) && forall|j: int|
                    0 <= j < i && j != f ==> !is_candidate(
                        message@.content,
                        #[trigger] self@.names[j].text,
                    )),
                count >= 2 ==> forall|k: int| !sole_candidate(self@.names, message@.content, k),
                found matches Some(f) ==> f < i,
            decreases n - i,
        {
            if self.is_candidate_name(message, i) {
                if count >= 1 {
                    proof {
                        let f = found.unwrap();
                        if count == 1 {
                            assert forall|k: int| !sole_candidate(self@.names, message@.content, k) by {
                                if sole_candidate(self@.names, message@.content, k) {
                                    if k != i as int {
                                        assert(!is_candidate(message@.content, self@.names[k].text)) by {
                                            assert(i as int != k);
                                        }
                                    } else {
                                        assert(f as int != k);
                                        assert(!is_candidate(message@.content, self@.names[f as int].text));
                                    }
                                }
                            }
                        }
                    }
                    count = 2;
                } else {
                    found = Some(i);
                    count = 1;
                }
            }
            i = i + 1;
        }
        if count != 1 {
            return None;
        }
        let k = found.unwrap();
        if timestamp.same_hour_as(&self.names[k].last_point_time) {
            return None;
        }
        Some(k)
    }

    /// The index of player `player_name`, appending it as a new player, with a
    /// zero point entry under every name, when it is not one yet.
    pub fn get_or_allocate_player_index(&mut self, player_name: &str) -> (r: usize)
        requires
            old(self).wf(),
        ensures
            final(self).wf(),
            final(self)@ == with_player(old(self)@, player_name@),
            r as int == player_slot(old(self)@, player_name@),
            r < final(self)@.players.len(),
            final(self)@.players[r as int] == player_name@,
            position_of(old(self)@.players, player_name@) < 0 ==> {
                &&& final(self)@.players.len() == old(self)@.players.len() + 1
                &&& forall|k: int|
                    0 <= k < final(self)@.names.len() ==> (#[trigger] final(self)@.names[k]).points.len()
                        == final(self)@.players.len() && final(self)@.names[k].points[r as int] == 0
            },
    {
        let who = player_name.to_owned();
        let n = self.players.len();
        let mut i: usize = 0;
        while i < n
            invariant
                n == self.players.len(),
                i <= n,
                who@ == player_name@,
                position_of(self@.players.take(i as int), who@) == -1,
                self@ == old(self)@,
                old(self).wf(),
            decreases n - i,
        {
            assert(self@.players.take(i + 1).drop_last() =~= self@.players.take(i as int));
            assert(self@.players[i as int] == self.players@[i as int]@);
            if self.players[i] == who {
                proof {
                    lemma_position_of_prefix(self@.players, who@, i as int + 1);
                }
                return i;
            }
            i = i + 1;
        }
        assert(self@.players.take(n as int) =~= self@.players);
        self.players.push(who);
        let ghost players_before = self.players@;
        let m = self.names.len();
        let mut k: usize = 0;
        while k < m
            invariant
                m == self.names.len(),
                k <= m,
                self.players@.len() == n + 1,
                self@.players == old(self)@.players.push(player_name@),
                self.last_message_channel_id == old(self).last_message_channel_id,
                self.last_message_id == old(self).last_message_id,
                old(self).wf(),
                m == old(self)@.names.len(),
                forall|j: int|
                    0 <= j < k ==> #[trigger] self@.names[j] == (NameView {
                        points: old(self)@.names[j].points.push(0),
                        ..old(self)@.names[j]
                    }),
                forall|j: int| k <= j < m ==> #[trigger] self@.names[j] == old(self)@.names[j],
            decreases m - k,
        {
            let ghost before = self.names@;
            let ghost before_view = self@.names;
            let mut name = self.names.remove(k);
            name.player_points.push(0);
            self.names.insert(k, name);
            proof {
                assert forall|j: int| 0 <= j < m && j != k implies #[trigger] self@.names[j] == before_view[j] by {
                    assert(self.names@[j] == before[j]);
                }
                assert(self@.names[k as int] == (NameView {
                    points: before_view[k as int].points.push(0),
                    ..before_view[k as int]
                }));
            }
            k = k + 1;
        }
        let ghost expected = with_player(old(self)@, player_name@);
        assert(self@.names =~= expected.names);
        assert(self@.players =~= expected.players);
        n
    }

    /// Scores `message` from `player_name` against the game: returns the name
    /// and player that earned a point, and changes the state only then.
    pub fn check_message_for_point(&mut self, message: &ChatMessage, player_name: &str) -> (r: Option<NameScore>)
        requires
            old(self).wf(),
        ensures
            final(self).wf(),
            (final(self)@, score_view(r)) == evaluate(old(self)@, message@, player_name@),
            (forall|k: int| !sole_candidate(old(self)@.names, message@.content, k)) ==> r is None
                && final(self)@ == old(self)@,
    {
        if is_message_disqualified(message) {
            return None;
        }
        let timestamp = message.effective_timestamp();
        match self.find_scored_name(message, timestamp) {
            None => {
                proof {
                    if exists|k: int| sole_candidate(self@.names, message@.content, k) {
                        let k = choose|k: int| sole_candidate(self@.names, message@.content, k);
                        assert(same_hour(timestamp, self@.names[k].last_point_time));
                    }
                }
                None
            },
            Some(k) => {
                proof {
                    let c = choose|j: int| sole_candidate(self@.names, message@.content, j);
                    assert(sole_candidate(self@.names, message@.content, k as int));
                    if c != k as int {
                        assert(!is_candidate(message@.content, self@.names[c].text));
                    }
                }
                let ghost g0 = self@;
                let p = self.get_or_allocate_player_index(player_name);
                let ghost g1 = self@;
                assert(g1.names[k as int].text == g0.names[k as int].text);
                let ghost before = self.names@;
                let mut name = self.names.remove(k);
                let current = name.player_points[p];
                let next = if current < u64::MAX { current + 1 } else { current };
                name.player_points.set(p, next);
                name.last_point_time = timestamp;
                self.names.insert(k, name);
                proof {
                    assert forall|j: int| 0 <= j < before.len() && j != k implies #[trigger] self.names@[j] == before[j] by {
                    }
                    let expected = award(g1, k as int, p as int, timestamp);
                    assert(self@.names =~= expected.names);
                }
                Some(NameScore { name_index: k, player_index: p })
            },
        }
    }
}

/// A match of `x` at `i` after none before it makes `i` its first position.
proof fn lemma_position_of_prefix(s: Seq<Seq<char>>, x: Seq<char>, n: int)
    requires
        0 < n <= s.len(),
        s[n - 1] == x,
        position_of(s.take(n - 1), x) == -1,
    ensures
        position_of(s, x) == n - 1,
    decreases s.len() - n,
{
    assert(s.take(n).drop_last() =~= s.take(n - 1));
    if n < s.len() {
        assert(position_of(s.take(n), x) == n - 1);
        lemma_position_of_extend(s, x, n);
    } else {
        assert(s.take(n) =~= s);
    }
}

/// Once `x` was found in a prefix, longer prefixes find it at the same place.
proof fn lemma_position_of_extend(s: Seq<Seq<char>>, x: Seq<char>, n: int)
    requires
        0 < n <= s.len(),
        position_of(s.take(n), x) >= 0,
    ensures
        position_of(s, x) == position_of(s.take(n), x),
    decreases s.len() - n,
{
    if n == s.len() {
        assert(s.take(n) =~= s);
    } else {
        assert(s.take(n + 1).drop_last() =~= s.take(n));
        lemma_position_of_extend(s, x, n + 1);
    }
}

/// The index of the name that a message earns a point for, or -1.
pub open spec fn scored_index(g: GameView, m: MessageView, who: Seq<char>) -> int {
    match evaluate(g, m, who).1 {
        Some((k, _)) => k,
        None => -1,
    }
}

/// A message that holds no more than `MIN_MESSAGE_LENGTH` bytes beyond a
/// name's text never earns a point for that name, whoever sends it.
pub proof fn short_message_never_scores(g: GameView, m: MessageView, who: Seq<char>, k: int)
    requires
        0 <= k < g.names.len(),
        byte_len(m.content) <= byte_len(g.names[k].text) + MIN_MESSAGE_LENGTH,
    ensures
        !(evaluate(g, m, who).1 matches Some((j, _)) && j == k),
{
    if let Some(j) = scored_name(g, m) {
        assert(sole_candidate(g.names, m.content, j));
        assert(j != k);
    }
}

/// A name earns at most one point per calendar hour: after a message scores
/// it, a second message in the same hour whose sole candidate is that same
/// name earns nothing, whoever sends it.
pub proof fn one_point_per_name_per_hour(
    g: GameView,
    first: MessageView,
    a: Seq<char>,
    second: MessageView,
    b: Seq<char>,
)
    requires
        game_wf(g),
        evaluate(g, first, a).1 is Some,
        sole_candidate(evaluate(g, first, a).0.names, second.content, scored_index(g, first, a)),
        same_hour(effective_time(first), effective_time(second)),
    ensures
        evaluate(evaluate(g, first, a).0, second, b).1 is None,
{
    let g1 = evaluate(g, first, a).0;
    let k = scored_index(g, first, a);
    assert(g1.names[k].last_point_time == effective_time(first));
    if !disqualified(second) {
        let c = choose|j: int| sole_candidate(g1.names, second.content, j);
        if c != k {
            assert(!is_candidate(second.content, g1.names[c].text));
        }
    }
}

/// The player index that a message's point goes to, or -1.
pub open spec fn scored_player(g: GameView, m: MessageView, who: Seq<char>) -> int {
    match evaluate(g, m, who).1 {
        Some((_, p)) => p,
        None => -1,
    }
}

proof fn lemma_position_of_found(s: Seq<Seq<char>>, x: Seq<char>)
    ensures
        position_of(s, x) >= 0 ==> position_of(s, x) < s.len() && s[position_of(s, x)] == x,
        -1 <= position_of(s, x),
    decreases s.len(),
{
    if s.len() > 0 {
        lemma_position_of_found(s.drop_last(), x);
    }
}

/// What a point changes: the author becomes (or already is) player `p`;
/// name `k` gains one point for `p` at the message's time; every other
/// entry keeps its value, a new player starting at zero everywhere; the
/// history cursor is untouched.
pub proof fn scoring_step_effect(g: GameView, m: MessageView, who: Seq<char>)
    requires
        game_wf(g),
        evaluate(g, m, who).1 is Some,
    ensures
        ({
            let g2 = evaluate(g, m, who).0;
            let k = scored_index(g, m, who);
            let p = scored_player(g, m, who);
            let before = |j: int, q: int| if q < g.players.len() { g.names[j].points[q] } else { 0u64 };
            &&& game_wf(g2)
            &&& 0 <= k < g.names.len()
            &&& g2.names.len() == g.names.len()
            &&& 0 <= p < g2.players.len()
            &&& g2.players[p] == who
            &&& g2.players == g.players || g2.players == g.players.push(who)
            &&& g2.names[k].points[p] == bump(before(k, p))
            &&& g2.names[k].last_point_time == effective_time(m)
            &&& forall|j: int, q: int|
                0 <= j < g.names.len() && 0 <= q < g2.players.len() && !(j == k && q == p)
                    ==> #[trigger] g2.names[j].points[q] == before(j, q)
            &&& forall|j: int|
                0 <= j < g.names.len() ==> (#[trigger] g2.names[j]).text == g.names[j].text
            &&& forall|j: int|
                0 <= j < g.names.len() && j != k ==> (#[trigger] g2.names[j]).last_point_time
                    == g.names[j].last_point_time
            &&& g2.last_message_channel_id == g.last_message_channel_id
            &&& g2.last_message_id == g.last_message_id
        }),
{
    lemma_position_of_found(g.players, who);
    let k = scored_index(g, m, who);
    assert(sole_candidate(g.names, m.content, k));
    let g1 = with_player(g, who);
    assert(game_wf(g1));
}

} // verus!
