use name_game::catch_up::{CatchUp, HistoryMessage};
use name_game::game::{
    is_candidate_text, is_message_disqualified, speaks_of_points_in, ChatMessage, NameGame, NameGameName, NameScore,
};
use name_game::leaderboard::rank_players;
use name_game::time::Timestamp;

const DAY: i64 = 1_637_798_400; // 2021-11-25T00:00:00Z

fn at_hour(hour: i64, minute: i64) -> Timestamp {
    Timestamp::from_seconds(DAY + hour * 3600 + minute * 60)
}

fn msg(content: &str, t: Timestamp) -> ChatMessage {
    ChatMessage {
        content: content.to_string(),
        replied_content: None,
        timestamp: t,
        edited_timestamp: None,
    }
}

fn game_with(names: &[&str]) -> NameGame {
    let mut g = NameGame::new();
    for n in names {
        g.names.push(NameGameName::new(n));
    }
    g
}

fn score(name_index: usize, player_index: usize) -> Option<NameScore> {
    Some(NameScore { name_index, player_index })
}

#[test]
fn example_noah_same_hour_then_next_hour() {
    let mut g = game_with(&["Noah"]);
    assert_eq!(g.check_message_for_point(&msg("Noah is really cool today", at_hour(10, 5)), "Alice"), score(0, 0));
    assert_eq!(g.players, vec!["Alice".to_string()]);
    assert_eq!(g.names[0].player_points, vec![1]);
    assert_eq!(g.names[0].last_point_time, at_hour(10, 5));

    assert_eq!(g.check_message_for_point(&msg("I love Noah so much wow", at_hour(10, 40)), "Bob"), None);
    assert_eq!(g.players, vec!["Alice".to_string()]);
    assert_eq!(g.names[0].player_points, vec![1]);

    assert_eq!(g.check_message_for_point(&msg("I love Noah so much wow", at_hour(11, 0)), "Bob"), score(0, 1));
    assert_eq!(g.players, vec!["Alice".to_string(), "Bob".to_string()]);
    assert_eq!(g.names[0].player_points, vec![1, 1]);
}

#[test]
fn bare_name_never_scores() {
    let mut g = game_with(&["Noah"]);
    for hour in 0..24 {
        assert_eq!(g.check_message_for_point(&msg("Noah", at_hour(hour, 0)), "Alice"), None);
    }
    assert!(g.players.is_empty());
}

#[test]
fn length_margin_is_strict() {
    let mut g = game_with(&["Noah"]);
    // 9 bytes: not more than 4 + 5.
    assert_eq!(g.check_message_for_point(&msg("Noah abcd", at_hour(1, 0)), "Alice"), None);
    // 10 bytes.
    assert_eq!(g.check_message_for_point(&msg("Noah abcde", at_hour(1, 0)), "Alice"), score(0, 0));
}

#[test]
fn length_counts_bytes() {
    let mut g = game_with(&["Björn"]);
    // "Björn" takes 6 bytes; "Björn åäö" takes 6 + 1 + 6 = 13 bytes, more than 6 + 5.
    assert_eq!(g.check_message_for_point(&msg("Björn åäö", at_hour(1, 0)), "Alice"), score(0, 0));
    // 6 + 5 bytes only.
    assert_eq!(g.check_message_for_point(&msg("Björn abcd", at_hour(2, 0)), "Alice"), None);
}

#[test]
fn two_names_in_one_message_void_it() {
    let mut g = game_with(&["Noah", "Björn"]);
    assert_eq!(g.check_message_for_point(&msg("Noah och Björn är bästa vänner", at_hour(3, 0)), "Alice"), None);
    assert!(g.players.is_empty());
    assert_eq!(g.names[0].last_point_time, Timestamp::epoch());
}

#[test]
fn upper_case_name_counts_but_other_casings_do_not() {
    let mut g = game_with(&["Noah"]);
    assert_eq!(g.check_message_for_point(&msg("NOAH is really cool today", at_hour(4, 0)), "Alice"), score(0, 0));
    assert_eq!(g.check_message_for_point(&msg("noah is really cool today", at_hour(5, 0)), "Alice"), None);
    assert_eq!(g.check_message_for_point(&msg("NoAh is really cool today", at_hour(6, 0)), "Alice"), None);
}

#[test]
fn talk_about_points_is_disqualified() {
    let mut g = game_with(&["Noah"]);
    assert_eq!(g.check_message_for_point(&msg("Noah gets a point today", at_hour(1, 0)), "Alice"), None);
    assert_eq!(g.check_message_for_point(&msg("Noah får inga POÄNG idag", at_hour(2, 0)), "Alice"), None);
    assert_eq!(g.check_message_for_point(&msg("Noah has many POINTS", at_hour(3, 0)), "Alice"), None);
    assert!(g.players.is_empty());
    assert!(is_message_disqualified(&msg("Poäng!", at_hour(1, 0))));
    assert!(!is_message_disqualified(&msg("Noah is really cool today", at_hour(1, 0))));
}

#[test]
fn reply_to_talk_about_points_is_disqualified() {
    let mut g = game_with(&["Noah"]);
    let mut m = msg("Noah is really cool today", at_hour(1, 0));
    m.replied_content = Some("Who has the most Poäng?".to_string());
    assert!(is_message_disqualified(&m));
    assert_eq!(g.check_message_for_point(&m, "Alice"), None);
    m.replied_content = Some("Nice weather".to_string());
    assert_eq!(g.check_message_for_point(&m, "Alice"), score(0, 0));
}

#[test]
fn edited_message_counts_at_edit_time() {
    let mut g = game_with(&["Noah"]);
    assert_eq!(g.check_message_for_point(&msg("Noah is really cool today", at_hour(10, 0)), "Alice"), score(0, 0));
    let mut m = msg("I love Noah so much wow", at_hour(10, 30));
    m.edited_timestamp = Some(at_hour(12, 0));
    assert_eq!(m.effective_timestamp(), at_hour(12, 0));
    assert_eq!(g.check_message_for_point(&m, "Bob"), score(0, 1));
    assert_eq!(g.names[0].last_point_time, at_hour(12, 0));
}

#[test]
fn same_hour_on_another_day_scores() {
    let mut g = game_with(&["Noah"]);
    assert_eq!(g.check_message_for_point(&msg("Noah is really cool today", at_hour(10, 0)), "Alice"), score(0, 0));
    assert_eq!(g.check_message_for_point(&msg("Noah is really cool today", at_hour(34, 0)), "Alice"), score(0, 0));
    assert_eq!(g.names[0].player_points, vec![2]);
}

#[test]
fn hours_before_the_epoch() {
    assert_eq!(Timestamp::from_seconds(-1).hour(), -1);
    assert_eq!(Timestamp::from_seconds(-3600).hour(), -1);
    assert_eq!(Timestamp::from_seconds(-3601).hour(), -2);
    assert_eq!(Timestamp::from_seconds(3599).hour(), 0);
    assert_eq!(Timestamp::from_seconds(7200).hour(), 2);
    assert!(Timestamp::from_seconds(-1).same_hour_as(&Timestamp::from_seconds(-3600)));
    assert!(!Timestamp::from_seconds(-1).same_hour_as(&Timestamp::from_seconds(0)));
}

#[test]
fn cooldown_is_per_name() {
    let mut g = game_with(&["Noah", "Björn"]);
    assert_eq!(g.check_message_for_point(&msg("Noah is really cool today", at_hour(10, 0)), "Alice"), score(0, 0));
    assert_eq!(g.check_message_for_point(&msg("Björn is really cool today", at_hour(10, 1)), "Bob"), score(1, 1));
    assert_eq!(g.names[0].player_points, vec![1, 0]);
    assert_eq!(g.names[1].player_points, vec![0, 1]);
}

#[test]
fn allocating_a_player_extends_every_name() {
    let mut g = game_with(&["Noah", "Björn", "Linnéa"]);
    assert_eq!(g.get_or_allocate_player_index("Alice"), 0);
    assert_eq!(g.get_or_allocate_player_index("Bob"), 1);
    assert_eq!(g.get_or_allocate_player_index("Alice"), 0);
    assert_eq!(g.players.len(), 2);
    for n in &g.names {
        assert_eq!(n.player_points, vec![0, 0]);
    }
}

#[test]
fn ranking_orders_by_points_then_index() {
    assert_eq!(rank_players(&vec![1, 3, 0, 3, 2], false), vec![1, 3, 4, 0]);
    assert_eq!(rank_players(&vec![1, 3, 0, 3, 2], true), vec![1, 3, 4, 0, 2]);
    assert_eq!(rank_players(&vec![0, 0], false), Vec::<usize>::new());
    assert_eq!(rank_players(&vec![0, 0], true), vec![0, 1]);
    assert_eq!(rank_players(&vec![], true), Vec::<usize>::new());
}

fn sample_game() -> NameGame {
    let mut g = game_with(&["Noah", "Björn"]);
    g.players = vec!["Alice".to_string(), "Bob".to_string(), "Cleo".to_string()];
    g.names[0].player_points = vec![1, 2, 0];
    g.names[1].player_points = vec![0, 0, 0];
    g
}

#[test]
fn leaderboard_text() {
    let g = sample_game();
    assert_eq!(g.player_totals(), vec![1, 2, 0]);
    let text = g.render_leaderboard(&vec![":a:".to_string(), ":b:".to_string()]);
    let expected = "✨ TOPPLISTA ✨\n\
        \n:a: Noah points:\n1. Bob, 2 poäng\n2. Alice, 1 poäng\n\
        \n:b: Björn points:\n\
        \n<:skl:844921829428953138> **FLEST POÄNG SAMMANLAGT** <:bingus:825501356416434186>\n\
        1. Bob, 2 poäng\n2. Alice, 1 poäng\n3. Cleo, 0 poäng\n";
    assert_eq!(text, expected);
}

#[test]
fn leaderboard_totals_sum_names() {
    let mut g = sample_game();
    g.names[1].player_points = vec![10, 0, 3];
    assert_eq!(g.player_totals(), vec![11, 2, 3]);
    let text = g.create_leaderboard_message(&vec![":x:".to_string()]);
    assert!(text.contains("\n:x: Noah points:\n"));
    assert!(text.contains("\n:x: Björn points:\n1. Alice, 10 poäng\n2. Cleo, 3 poäng\n"));
    assert!(text.ends_with("1. Alice, 11 poäng\n2. Cleo, 3 poäng\n3. Bob, 2 poäng\n"));
}

#[test]
fn leaderboard_symbols_come_from_the_pool() {
    let g = sample_game();
    let pool = vec![":p:".to_string(), ":q:".to_string()];
    let text = g.create_leaderboard_message(&pool);
    let sections = text.matches(" points:\n").count();
    assert_eq!(sections, 2);
    assert!(text.contains(":p: Noah") || text.contains(":q: Noah"));
    assert!(text.contains(":p: Björn") || text.contains(":q: Björn"));
}

fn entry(id: u64, author_id: u64, from_bot: bool, content: &str, t: Timestamp) -> HistoryMessage {
    HistoryMessage { id, author_id, from_bot, message: msg(content, t) }
}

fn history_page() -> Vec<HistoryMessage> {
    // Newest first, as fetched.
    vec![
        entry(105, 3, false, "Noah again this hour, yes", at_hour(10, 50)),
        entry(104, 2, false, "Noah is back in the next hour", at_hour(11, 10)),
        entry(103, 9, true, "Noah says the bot, very long", at_hour(12, 0)),
        entry(102, 2, false, "I love Noah so much wow", at_hour(10, 30)),
        entry(101, 1, false, "Noah is really cool today", at_hour(10, 5)),
    ]
}

fn run_catch_up(g: &mut NameGame) -> CatchUp {
    let mut run = CatchUp::start(g);
    let page = history_page();
    for e in &page {
        if run.needs_nickname(e) {
            if e.author_id == 1 {
                run.remember_nickname(1, "Alice".to_string());
            } else if e.author_id == 2 {
                run.remember_nickname(2, "Bob".to_string());
            }
        }
    }
    assert!(run.take_page(g, &page));
    assert!(!run.take_page(g, &Vec::new()));
    run.finish(g);
    run
}

#[test]
fn catch_up_replays_oldest_first() {
    let mut g = game_with(&["Noah"]);
    g.last_message_id = 100;
    let run = run_catch_up(&mut g);
    assert_eq!(run.cursor, 105);
    assert_eq!(g.last_message_id, 105);
    // Alice scores at 10:05; Bob's 10:30 is in the same hour; the bot is
    // skipped; Bob scores at 11:10; author 3 has no nickname.
    assert_eq!(g.players, vec!["Alice".to_string(), "Bob".to_string()]);
    assert_eq!(g.names[0].player_points, vec![1, 1]);
    assert_eq!(g.names[0].last_point_time, at_hour(11, 10));
}

#[test]
fn catch_up_twice_from_same_start_is_identical() {
    let mut a = game_with(&["Noah", "Björn"]);
    let mut b = game_with(&["Noah", "Björn"]);
    run_catch_up(&mut a);
    run_catch_up(&mut b);
    assert_eq!(a.players, b.players);
    for k in 0..2 {
        assert_eq!(a.names[k].player_points, b.names[k].player_points);
        assert_eq!(a.names[k].last_point_time, b.names[k].last_point_time);
    }
    assert_eq!(a.last_message_id, b.last_message_id);
}

#[test]
fn nickname_cache_keeps_first() {
    let g = NameGame::new();
    let mut run = CatchUp::start(&g);
    assert_eq!(run.nickname(7), None);
    run.remember_nickname(7, "Alice".to_string());
    run.remember_nickname(7, "Other".to_string());
    assert_eq!(run.nickname(7), Some("Alice".to_string()));
    let e = entry(1, 7, false, "hello", at_hour(0, 0));
    assert!(!run.needs_nickname(&e));
    let bot = entry(2, 8, true, "hello", at_hour(0, 0));
    assert!(!run.needs_nickname(&bot));
    let other = entry(3, 8, false, "hello", at_hour(0, 0));
    assert!(run.needs_nickname(&other));
}

#[test]
fn live_score_keeps_the_cursor() {
    let mut g = game_with(&["Noah"]);
    g.last_message_channel_id = 7;
    g.last_message_id = 900;
    assert_eq!(g.check_message_for_point(&msg("Noah is really cool today", at_hour(10, 0)), "Alice"), score(0, 0));
    assert_eq!(g.last_message_channel_id, 7);
    assert_eq!(g.last_message_id, 900);
}

#[test]
fn scoring_word_on_lower_cased_text() {
    assert!(speaks_of_points_in("du fick ett poäng"));
    assert!(speaks_of_points_in("one point"));
    assert!(speaks_of_points_in("points"));
    assert!(!speaks_of_points_in("POÄNG"));
    assert!(!speaks_of_points_in("poi nt and po äng"));
}

#[test]
fn candidate_on_given_upper_case() {
    assert!(is_candidate_text("NOAH is really cool", "Noah", "NOAH"));
    assert!(is_candidate_text("Noah is really cool", "Noah", "XYZ"));
    assert!(!is_candidate_text("NOAH is really cool", "Noah", "XYZ"));
    assert!(!is_candidate_text("Noah abcd", "Noah", "NOAH"));
    assert!(is_candidate_text("Noah abcde", "Noah", "NOAH"));
}
