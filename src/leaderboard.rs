//! Rankings of players by points, and the leaderboard text built from them.

use vstd::prelude::*;
use crate::game::{game_wf, players_view, GameView, NameGame, NameView};
use crate::text::{choose_one, decimal, decimal_text};

verus! {

/// Player `a` ranks before player `b`: more points, or as many and a lower index.
pub open spec fn ranks_before(keys: Seq<u128>, a: int, b: int) -> bool {
    keys[a] > keys[b] || (keys[a] == keys[b] && a < b)
}

/// `order` lists player indices, best first, strictly by `ranks_before`, and
/// holds exactly the players with points (every player when `keep_zero`).
pub open spec fn is_ranking(keys: Seq<u128>, keep_zero: bool, order: Seq<usize>) -> bool {
    &&& forall|i: int| 0 <= i < order.len() ==> #[trigger] order[i] < keys.len()
    &&& forall|i: int, j: int|
        0 <= i < j < order.len() ==> ranks_before(keys, #[trigger] order[i] as int, #[trigger] order[j] as int)
    &&& forall|p: usize|
        #![trigger order.contains(p)]
        #![trigger keys[p as int]]
        (p as int) < keys.len() ==> (order.contains(p) <==> (keep_zero || keys[p as int] != 0))
}

/// Ranks players by their keys, best first; ties go to the lower index.
/// Players with no points are left out unless `keep_zero`.
pub fn rank_players(keys: &Vec<u128>, keep_zero: bool) -> (r: Vec<usize>)
    ensures
        is_ranking(keys@, keep_zero, r@),
{
    let n = keys.len();
    let mut order: Vec<usize> = Vec::new();
    let mut x: usize = 0;
    while x < n
        invariant
            n == keys.len(),
            x <= n,
            forall|i: int| 0 <= i < order.len() ==> #[trigger] order@[i] < x,
            forall|i: int, j: int|
                0 <= i < j < order.len() ==> ranks_before(keys@, #[trigger] order@[i] as int, #[trigger] order@[j] as int),
            forall|p: usize|
                #![trigger order@.contains(p)]
                #![trigger keys@[p as int]]
                p < x ==> (order@.contains(p) <==> (keep_zero || keys@[p as int] != 0)),
        decreases n - x,
    {
        let ghost before = order@;
        if keep_zero || keys[x] != 0 {
            let pos = insert_position(keys, &order, x);
            proof {
                lemma_insert_keeps_ranking(keys@, before, pos as int, x);
            }
            order.insert(pos, x);
            proof {
                assert forall|p: usize|
                    #![trigger order@.contains(p)]
                    #![trigger keys@[p as int]]
                    p < x + 1 implies (order@.contains(p) <==> (keep_zero || keys@[p as int] != 0)) by {
                    lemma_insert_members(before, pos as int, x, p);
                    if p < x {
                        assert(before.contains(p) <==> (keep_zero || keys@[p as int] != 0));
                    }
                }
            }
        } else {
            proof {
                if order@.contains(x) {
                    let i = choose|i: int| 0 <= i < order.len() && order@[i] == x;
                    assert(order@[i] < x);
                }
                assert forall|p: usize|
                    #![trigger order@.contains(p)]
                    #![trigger keys@[p as int]]
                    p < x + 1 implies (order@.contains(p) <==> (keep_zero || keys@[p as int] != 0)) by {
                    if p < x {
                        assert(before.contains(p) <==> (keep_zero || keys@[p as int] != 0));
                    }
                }
            }
        }
        x = x + 1;
    }
    order
}

/// The first place in `order` whose player has fewer points than player `x`.
fn insert_position(keys: &Vec<u128>, order: &Vec<usize>, x: usize) -> (pos: usize)
    requires
        x < keys.len(),
        forall|i: int| 0 <= i < order.len() ==> #[trigger] order@[i] < keys.len(),
    ensures
        pos <= order.len(),
        forall|j: int| 0 <= j < pos ==> keys@[#[trigger] order@[j] as int] >= keys@[x as int],
        pos == order.len() || keys@[order@[pos as int] as int] < keys@[x as int],
{
    let mut pos: usize = 0;
    while pos < order.len() && keys[order[pos]] >= keys[x]
        invariant
            x < keys.len(),
            pos <= order.len(),
            forall|i: int| 0 <= i < order.len() ==> #[trigger] order@[i] < keys.len(),
            forall|j: int| 0 <= j < pos ==> keys@[#[trigger] order@[j] as int] >= keys@[x as int],
        decreases order.len() - pos,
    {
        pos = pos + 1;
    }
    pos
}

proof fn lemma_insert_members(s: Seq<usize>, pos: int, x: usize, p: usize)
    requires
        0 <= pos <= s.len(),
    ensures
        s.insert(pos, x).contains(p) <==> (s.contains(p) || p == x),
{
    let t = s.insert(pos, x);
    if s.contains(p) {
        let i = choose|i: int| 0 <= i < s.len() && s[i] == p;
        if i < pos {
            assert(t[i] == p);
        } else {
            assert(t[i + 1] == p);
        }
    }
    if p == x {
        assert(t[pos] == x);
    }
    if t.contains(p) {
        let i = choose|i: int| 0 <= i < t.len() && t[i] == p;
        if i < pos {
            assert(s[i] == p);
        } else if i > pos {
            assert(s[i - 1] == p);
        }
    }
}

/// Inserting a new player after every one with at least its points keeps the
/// order strictly ranked, when the new player has the highest index so far.
proof fn lemma_insert_keeps_ranking(keys: Seq<u128>, s: Seq<usize>, pos: int, x: usize)
    requires
        0 <= pos <= s.len(),
        x < keys.len(),
        forall|i: int| 0 <= i < s.len() ==> #[trigger] s[i] < x,
        forall|i: int, j: int|
            0 <= i < j < s.len() ==> ranks_before(keys, #[trigger] s[i] as int, #[trigger] s[j] as int),
        forall|j: int| 0 <= j < pos ==> keys[#[trigger] s[j] as int] >= keys[x as int],
        pos == s.len() || keys[s[pos] as int] < keys[x as int],
    ensures
        forall|i: int, j: int|
            0 <= i < j < s.insert(pos, x).len() ==> ranks_before(
                keys,
                #[trigger] s.insert(pos, x)[i] as int,
                #[trigger] s.insert(pos, x)[j] as int,
            ),
        forall|i: int| 0 <= i < s.insert(pos, x).len() ==> #[trigger] s.insert(pos, x)[i] < x + 1,
{
    let t = s.insert(pos, x);
    assert forall|j: int| pos <= j < s.len() implies keys[#[trigger] s[j] as int] < keys[x as int] by {
        if j > pos {
            assert(ranks_before(keys, s[pos] as int, s[j] as int));
        }
    }
    assert forall|i: int, j: int| 0 <= i < j < t.len() implies ranks_before(keys, #[trigger] t[i] as int, #[trigger] t[j] as int) by {
        if j < pos {
            assert(ranks_before(keys, s[i] as int, s[j] as int));
        } else if j == pos {
            assert(t[i] == s[i]);
        } else if i < pos {
            assert(ranks_before(keys, s[i] as int, s[j - 1] as int));
        } else if i == pos {
            assert(t[j] == s[j - 1]);
        } else {
            assert(ranks_before(keys, s[i - 1] as int, s[j - 1] as int));
        }
    }
}

/// The order is strictly by `ranks_before`.
pub open spec fn strictly_ranked(keys: Seq<u128>, s: Seq<usize>) -> bool {
    forall|i: int, j: int| 0 <= i < j < s.len() ==> ranks_before(keys, #[trigger] s[i] as int, #[trigger] s[j] as int)
}

proof fn lemma_drop_first_members(keys: Seq<u128>, s: Seq<usize>, x: usize)
    requires
        s.len() > 0,
        strictly_ranked(keys, s),
    ensures
        s.drop_first().contains(x) <==> (s.contains(x) && x != s[0]),
{
    let t = s.drop_first();
    if t.contains(x) {
        let i = choose|i: int| 0 <= i < t.len() && t[i] == x;
        assert(s[i + 1] == x);
        assert(ranks_before(keys, s[0] as int, s[i + 1] as int));
    }
    if s.contains(x) && x != s[0] {
        let i = choose|i: int| 0 <= i < s.len() && s[i] == x;
        assert(t[i - 1] == x);
    }
}

/// Two strictly ranked orders of the same players are the same order.
proof fn lemma_ranked_unique(keys: Seq<u128>, a: Seq<usize>, b: Seq<usize>)
    requires
        strictly_ranked(keys, a),
        strictly_ranked(keys, b),
        forall|x: usize| a.contains(x) <==> b.contains(x),
    ensures
        a == b,
    decreases a.len(),
{
    if a.len() == 0 {
        if b.len() > 0 {
            assert(b.contains(b[0]));
        }
        assert(b =~= a);
    } else {
        assert(a.contains(a[0]));
        if b.len() == 0 {
            assert(false);
        }
        assert(b.contains(b[0]));
        let j = choose|j: int| 0 <= j < b.len() && b[j] == a[0];
        let i = choose|i: int| 0 <= i < a.len() && a[i] == b[0];
        if j > 0 {
            assert(ranks_before(keys, b[0] as int, b[j] as int));
            if i > 0 {
                assert(ranks_before(keys, a[0] as int, a[i] as int));
            }
        }
        assert(a[0] == b[0]);
        let ta = a.drop_first();
        let tb = b.drop_first();
        assert forall|x: usize| ta.contains(x) <==> tb.contains(x) by {
            lemma_drop_first_members(keys, a, x);
            lemma_drop_first_members(keys, b, x);
        }
        assert(strictly_ranked(keys, ta));
        assert(strictly_ranked(keys, tb));
        lemma_ranked_unique(keys, ta, tb);
        assert(a =~= seq![a[0]] + ta);
        assert(b =~= seq![b[0]] + tb);
    }
}

/// A ranking is determined by the points alone: two orders that both rank
/// the same players by the same points, with the same rule for players
/// without points, are one and the same order.
pub proof fn ranking_is_unique(keys: Seq<u128>, keep_zero: bool, a: Seq<usize>, b: Seq<usize>)
    requires
        is_ranking(keys, keep_zero, a),
        is_ranking(keys, keep_zero, b),
    ensures
        a == b,
{
    assert forall|x: usize| a.contains(x) <==> b.contains(x) by {
        if a.contains(x) {
            let i = choose|i: int| 0 <= i < a.len() && a[i] == x;
            assert(a[i] < keys.len());
        }
        if b.contains(x) {
            let i = choose|i: int| 0 <= i < b.len() && b[i] == x;
            assert(b[i] < keys.len());
        }
    }
    lemma_ranked_unique(keys, a, b);
}

/// A player's points summed over all names.
pub open spec fn total_points(names: Seq<NameView>, p: int) -> int
    decreases names.len(),
{
    if names.len() == 0 {
        0
    } else {
        total_points(names.drop_last(), p) + names.last().points[p]
    }
}

pub open spec fn widen(points: Seq<u64>) -> Seq<u128> {
    points.map_values(|x: u64| x as u128)
}

/// Every player's points summed over all names, by player index.
pub open spec fn totals(g: GameView) -> Seq<u128> {
    Seq::new(g.players.len(), |p: int| total_points(g.names, p) as u128)
}

proof fn lemma_total_points_bound(names: Seq<NameView>, p: int)
    requires
        0 <= p,
        forall|k: int| 0 <= k < names.len() ==> p < (#[trigger] names[k]).points.len(),
    ensures
        0 <= total_points(names, p) <= names.len() * (u64::MAX as int),
    decreases names.len(),
{
    if names.len() > 0 {
        let front = names.drop_last();
        assert forall|k: int| 0 <= k < front.len() implies p < (#[trigger] front[k]).points.len() by {
            assert(front[k] == names[k]);
        }
        lemma_total_points_bound(front, p);
        assert(names.last() == names[names.len() - 1]);
        assert((names.len() - 1) * (u64::MAX as int) + (u64::MAX as int) == names.len() * (u64::MAX as int))
            by (nonlinear_arith);
    }
}

pub open spec fn title() -> Seq<char> {
    "✨ TOPPLISTA ✨\n"@
}

pub open spec fn totals_title() -> Seq<char> {
    "\n<:skl:844921829428953138> **FLEST POÄNG SAMMANLAGT** <:bingus:825501356416434186>\n"@
}

/// One line of a ranking: place, player and points.
pub open spec fn rank_line(place: nat, player: Seq<char>, points: nat) -> Seq<char> {
    decimal(place) + ". "@ + player + ", "@ + decimal(points) + " poäng\n"@
}

/// The lines of a ranking, places counted from one.
pub open spec fn rank_lines(players: Seq<Seq<char>>, keys: Seq<u128>, order: Seq<usize>) -> Seq<char>
    decreases order.len(),
{
    if order.len() == 0 {
        Seq::empty()
    } else {
        rank_lines(players, keys, order.drop_last()) + rank_line(
            order.len() as nat,
            players[order.last() as int],
            keys[order.last() as int] as nat,
        )
    }
}

/// The section of one name: its symbol and text, then its ranking.
pub open spec fn name_section(symbol: Seq<char>, name: NameView, players: Seq<Seq<char>>, order: Seq<usize>) -> Seq<char> {
    "\n"@ + symbol + " "@ + name.text + " points:\n"@ + rank_lines(players, widen(name.points), order)
}

/// The sections of the first `k` names.
pub open spec fn sections(g: GameView, symbols: Seq<Seq<char>>, orders: Seq<Seq<usize>>, k: int) -> Seq<char>
    decreases k,
{
    if k <= 0 {
        Seq::empty()
    } else {
        sections(g, symbols, orders, k - 1) + name_section(symbols[k - 1], g.names[k - 1], g.players, orders[k - 1])
    }
}

pub open spec fn board_text(
    g: GameView,
    symbols: Seq<Seq<char>>,
    orders: Seq<Seq<usize>>,
    overall: Seq<usize>,
) -> Seq<char> {
    title() + sections(g, symbols, orders, g.names.len() as int) + totals_title() + rank_lines(
        g.players,
        totals(g),
        overall,
    )
}

/// `text` is the leaderboard of `g` with one symbol per name: each name's
/// players with points, best first, then every player by total points.
pub open spec fn is_board(g: GameView, symbols: Seq<Seq<char>>, text: Seq<char>) -> bool {
    exists|orders: Seq<Seq<usize>>, overall: Seq<usize>|
        {
            &&& orders.len() == g.names.len()
            &&& forall|k: int| 0 <= k < g.names.len() ==> is_ranking(widen(g.names[k].points), false, #[trigger] orders[k])
            &&& is_ranking(totals(g), true, overall)
            &&& text == board_text(g, symbols, orders, overall)
        }
}

fn widened(points: &Vec<u64>) -> (r: Vec<u128>)
    ensures
        r@ == widen(points@),
{
    let mut r: Vec<u128> = Vec::new();
    let mut i: usize = 0;
    while i < points.len()
        invariant
            i <= points.len(),
            r@ == widen(points@.take(i as int)),
        decreases points.len() - i,
    {
        r.push(points[i] as u128);
        i = i + 1;
        assert(r@ =~= widen(points@.take(i as int)));
    }
    assert(points@.take(i as int) =~= points@);
    r
}

/// Appends the lines of a ranking to `text`.
fn append_rank_lines(text: &mut String, players: &Vec<String>, keys: &Vec<u128>, order: &Vec<usize>)
    requires
        forall|i: int| 0 <= i < order.len() ==> #[trigger] order@[i] < keys.len() && order@[i] < players.len(),
    ensures
        final(text)@ == old(text)@ + rank_lines(players_view(players@), keys@, order@),
{
    let mut j: usize = 0;
    while j < order.len()
        invariant
            j <= order.len(),
            forall|i: int| 0 <= i < order.len() ==> #[trigger] order@[i] < keys.len() && order@[i] < players.len(),
            text@ == old(text)@ + rank_lines(players_view(players@), keys@, order@.take(j as int)),
        decreases order.len() - j,
    {
        let p = order[j];
        let ghost start = text@;
        let place = decimal_text(j as u128 + 1);
        text.append(place.as_str());
        text.append(". ");
        text.append(players[p].as_str());
        text.append(", ");
        let points = decimal_text(keys[p]);
        text.append(points.as_str());
        text.append(" poäng\n");
        proof {
            let prefix = order@.take(j + 1);
            assert(prefix.drop_last() =~= order@.take(j as int));
            assert(prefix.last() == p);
            assert(players_view(players@)[p as int] == players@[p as int]@);
            assert(text@ =~= start + rank_line((j + 1) as nat, players@[p as int]@, keys@[p as int] as nat));
        }
        j = j + 1;
    }
    assert(order@.take(j as int) =~= order@);
}

impl NameGame {
    /// Every player's points summed over all names, by player index.
    pub fn player_totals(&self) -> (r: Vec<u128>)
        requires
            game_wf(self@),
        ensures
            r@ == totals(self@),
    {
        let mut r: Vec<u128> = Vec::new();
        let n = self.players.len();
        let mut p: usize = 0;
        while p < n
            invariant
                n == self.players.len(),
                p <= n,
                game_wf(self@),
                r@.len() == p,
                forall|q: int| 0 <= q < p ==> #[trigger] r@[q] == totals(self@)[q],
            decreases n - p,
        {
            let mut sum: u128 = 0;
            let mut k: usize = 0;
            while k < self.names.len()
                invariant
                    n == self.players.len(),
                    p < n,
                    k <= self.names.len(),
                    game_wf(self@),
                    sum == total_points(self@.names.take(k as int), p as int),
                decreases self.names.len() - k,
            {
                let ghost front = self@.names.take(k as int + 1);
                proof {
                    assert(front.drop_last() =~= self@.names.take(k as int));
                    assert forall|j: int| 0 <= j < front.len() implies p < (#[trigger] front[j]).points.len() by {
                        assert(front[j] == self@.names[j]);
                    }
                    lemma_total_points_bound(front, p as int);
                    assert(front.len() * (u64::MAX as int) <= (usize::MAX as int) * (u64::MAX as int)) by (nonlinear_arith)
                        requires front.len() <= usize::MAX;
                    assert(self@.names[k as int] == self.names@[k as int]@);
                }
                sum = sum + self.names[k].player_points[p] as u128;
                k = k + 1;
            }
            assert(self@.names.take(self.names.len() as int) =~= self@.names);
            r.push(sum);
            p = p + 1;
        }
        assert(r@ =~= totals(self@));
        r
    }

    /// The leaderboard text, with `symbols[k]` heading the section of name `k`.
    pub fn render_leaderboard(&self, symbols: &Vec<String>) -> (r: String)
        requires
            game_wf(self@),
            symbols.len() == self.names.len(),
        ensures
            is_board(self@, players_view(symbols@), r@),
    {
        let mut text = String::from_str("✨ TOPPLISTA ✨\n");
        let ghost symbols_v = players_view(symbols@);
        let ghost mut orders: Seq<Seq<usize>> = Seq::empty();
        let mut k: usize = 0;
        while k < self.names.len()
            invariant
                k <= self.names.len(),
                symbols.len() == self.names.len(),
                symbols_v == players_view(symbols@),
                game_wf(self@),
                orders.len() == k,
                forall|j: int| 0 <= j < k ==> is_ranking(widen(self@.names[j].points), false, #[trigger] orders[j]),
                text@ == title() + sections(self@, symbols_v, orders, k as int),
            decreases self.names.len() - k,
        {
            let name = &self.names[k];
            assert(self@.names[k as int] == name@);
            let keys = widened(&name.player_points);
            let order = rank_players(&keys, false);
            let ghost start = text@;
            text.append("\n");
            text.append(symbols[k].as_str());
            text.append(" ");
            text.append(name.name.as_str());
            text.append(" points:\n");
            proof {
                assert forall|i: int| 0 <= i < order.len() implies #[trigger] order@[i] < keys.len() && order@[i] < self.players.len() by {
                    assert(order@[i] < keys.len());
                }
            }
            append_rank_lines(&mut text, &self.players, &keys, &order);
            proof {
                let new_orders = orders.push(order@);
                assert forall|j: int| 0 <= j < k as int implies sections(self@, symbols_v, new_orders, j) == sections(self@, symbols_v, orders, j) by {
                    lemma_sections_prefix(self@, symbols_v, orders, new_orders, j);
                }
                lemma_sections_prefix(self@, symbols_v, orders, new_orders, k as int);
                assert(symbols_v[k as int] == symbols@[k as int]@);
                assert(text@ =~= title() + sections(self@, symbols_v, new_orders, k as int + 1));
                orders = new_orders;
            }
            k = k + 1;
        }
        text.append("\n<:skl:844921829428953138> **FLEST POÄNG SAMMANLAGT** <:bingus:825501356416434186>\n");
        let all = self.player_totals();
        let overall = rank_players(&all, true);
        proof {
            assert forall|i: int| 0 <= i < overall.len() implies #[trigger] overall@[i] < all.len() && overall@[i] < self.players.len() by {
                assert(overall@[i] < all.len());
            }
        }
        append_rank_lines(&mut text, &self.players, &all, &overall);
        assert(text@ =~= board_text(self@, symbols_v, orders, overall@));
        text
    }

    /// The leaderboard, with a symbol picked at random from `emojis` for
    /// each name's section.
    pub fn create_leaderboard_message(&self, emojis: &Vec<String>) -> (r: String)
        requires
            game_wf(self@),
            self.names.len() > 0 ==> emojis.len() > 0,
        ensures
            exists|symbols: Seq<Seq<char>>|
                {
                    &&& symbols.len() == self@.names.len()
                    &&& forall|k: int| 0 <= k < symbols.len() ==> exists|i: int| 0 <= i < emojis.len() && emojis@[i]@ == #[trigger] symbols[k]
                    &&& is_board(self@, symbols, r@)
                },
    {
        let mut symbols: Vec<String> = Vec::new();
        let mut k: usize = 0;
        while k < self.names.len()
            invariant
                k <= self.names.len(),
                self.names.len() > 0 ==> emojis.len() > 0,
                symbols.len() == k,
                forall|j: int| 0 <= j < k ==> exists|i: int| 0 <= i < emojis.len() && emojis@[i]@ == (#[trigger] symbols@[j])@,
            decreases self.names.len() - k,
        {
            let symbol = choose_one(emojis);
            match symbol {
                Some(s) => symbols.push(s),
                None => {
                    assert(false);
                    symbols.push(String::new());
                },
            }
            k = k + 1;
        }
        let r = self.render_leaderboard(&symbols);
        proof {
            let sv = players_view(symbols@);
            assert forall|j: int| 0 <= j < sv.len() implies exists|i: int| 0 <= i < emojis.len() && emojis@[i]@ == #[trigger] sv[j] by {
                assert(sv[j] == symbols@[j]@);
            }
        }
        r
    }
}

proof fn lemma_sections_prefix(
    g: GameView,
    symbols: Seq<Seq<char>>,
    orders: Seq<Seq<usize>>,
    longer: Seq<Seq<usize>>,
    k: int,
)
    requires
        0 <= k <= orders.len() <= longer.len(),
        forall|j: int| 0 <= j < orders.len() ==> longer[j] == orders[j],
    ensures
        sections(g, symbols, longer, k) == sections(g, symbols, orders, k),
    decreases k,
{
    if k > 0 {
        lemma_sections_prefix(g, symbols, orders, longer, k - 1);
    }
}

} // verus!
