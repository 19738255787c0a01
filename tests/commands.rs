use name_game::dispatch::{command_for, lowercase_for_commands, small_talk, Command, SmallTalk};

#[test]
fn search_commands_take_the_rest_lower_cased() {
    assert_eq!(command_for("YouTube Never Gonna", "allmänt"), Command::Youtube("never gonna".to_string()));
    assert_eq!(command_for("fotografera en KATT", "allmänt"), Command::Photo("en katt".to_string()));
    assert_eq!(command_for("youtube", "allmänt"), Command::Score);
}

#[test]
fn remove_commands() {
    assert_eq!(command_for("Ta bort videon, bot.", "allmänt"), Command::RemoveVideo);
    assert_eq!(command_for("BOT TA BORT", "allmänt"), Command::RemoveLast);
    assert_eq!(command_for("bot ta bort nu", "allmänt"), Command::Score);
}

#[test]
fn counting_channel_answers_next_number() {
    assert_eq!(command_for("41", "räkna"), Command::Count(42));
    assert_eq!(command_for("-7", "räkna"), Command::Count(-6));
    assert_eq!(command_for("+9", "räkna"), Command::Count(10));
    assert_eq!(command_for("2147483647", "räkna"), Command::Count(2147483648));
    assert_eq!(command_for("2147483648", "räkna"), Command::Score);
    assert_eq!(command_for("fyra", "räkna"), Command::Score);
    assert_eq!(command_for("41", "allmänt"), Command::Score);
}

#[test]
fn leaderboard_command_and_plain_messages() {
    assert_eq!(command_for("Bot poäng", "allmänt"), Command::Leaderboard);
    assert_eq!(command_for("bot POÄNG", "allmänt"), Command::Score);
    assert_eq!(command_for("Noah is really cool today", "allmänt"), Command::Score);
}

#[test]
fn small_talk_answers() {
    let lower = lowercase_for_commands("Tack BOT!");
    assert_eq!(lower, "tack bot!");
    assert_eq!(small_talk(&lower), (false, Some(SmallTalk::Thanks)));
    assert_eq!(small_talk("godnatt bot"), (false, Some(SmallTalk::GoodNight)));
    assert_eq!(small_talk("bot tack och godnatt"), (false, Some(SmallTalk::Thanks)));
    assert_eq!(small_talk("godnatt alla"), (false, None));
    assert_eq!(small_talk("vi dansar bot, tack"), (true, Some(SmallTalk::Thanks)));
    assert_eq!(small_talk("dans"), (true, None));
}
