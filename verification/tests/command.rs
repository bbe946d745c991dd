use snake_board::command::{parse_command, ParsedCommand};
use snake_board::direction::{decide_move, match_direction, Direction};

#[test]
fn bare_command_uses_the_default_board() {
    assert_eq!(parse_command("snake"), ParsedCommand::NewGame(20, 10));
}

#[test]
fn two_tokens_name_the_dimensions() {
    assert_eq!(parse_command("snake 5 6"), ParsedCommand::NewGame(5, 6));
    assert_eq!(parse_command("snake 20 10"), ParsedCommand::NewGame(20, 10));
}

#[test]
fn other_token_counts_fall_back_to_the_default() {
    assert_eq!(parse_command("snake 5"), ParsedCommand::NewGame(20, 10));
    assert_eq!(parse_command("snake 5 6 7"), ParsedCommand::NewGame(20, 10));
}

#[test]
fn non_commands_are_ignored() {
    assert_eq!(parse_command("hello"), ParsedCommand::NotCommand);
    assert_eq!(parse_command("snak"), ParsedCommand::NotCommand);
    assert_eq!(parse_command(""), ParsedCommand::NotCommand);
    assert_eq!(parse_command("Snake 5 6"), ParsedCommand::NotCommand);
}

#[test]
fn the_prefix_check_is_literal() {
    // Only the leading characters are checked, as the original prefix
    // match does: a longer first word still starts a game.
    assert_eq!(parse_command("snakes 3 4"), ParsedCommand::NewGame(3, 4));
}

#[test]
fn malformed_dimensions_are_rejected() {
    assert_eq!(parse_command("snake a b"), ParsedCommand::BadDimensions);
    assert_eq!(parse_command("snake 5 b"), ParsedCommand::BadDimensions);
    assert_eq!(parse_command("snake 0 5"), ParsedCommand::BadDimensions);
    assert_eq!(parse_command("snake -3 5"), ParsedCommand::BadDimensions);
    assert_eq!(
        parse_command("snake 99999999999999999999999 5"),
        ParsedCommand::BadDimensions
    );
    // A doubled space makes an empty token.
    assert_eq!(parse_command("snake  5"), ParsedCommand::BadDimensions);
}

#[test]
fn reaction_symbols_map_to_directions() {
    assert!(matches!(
        match_direction("\u{2b06}\u{fe0f}"),
        Some(Direction::Up)
    ));
    assert!(matches!(
        match_direction("\u{2b07}\u{fe0f}"),
        Some(Direction::Down)
    ));
    assert!(matches!(
        match_direction("\u{2b05}\u{fe0f}"),
        Some(Direction::Left)
    ));
    assert!(matches!(
        match_direction("\u{27a1}\u{fe0f}"),
        Some(Direction::Right)
    ));
    assert!(match_direction("x").is_none());
    // The bare arrow without the variation selector is a different symbol.
    assert!(match_direction("\u{2b06}").is_none());
}

#[test]
fn emoji_match_their_directions() {
    assert_eq!(Direction::Up.emoji(), "\u{2b06}\u{fe0f}");
    assert_eq!(Direction::Down.emoji(), "\u{2b07}\u{fe0f}");
    assert_eq!(Direction::Left.emoji(), "\u{2b05}\u{fe0f}");
    assert_eq!(Direction::Right.emoji(), "\u{27a1}\u{fe0f}");
}

#[test]
fn moves_require_a_session_and_a_foreign_reaction() {
    let up = "\u{2b06}\u{fe0f}";
    assert!(matches!(
        decide_move(false, true, true, up),
        Some(Direction::Up)
    ));
    assert!(decide_move(true, true, true, up).is_none());
    assert!(decide_move(false, false, true, up).is_none());
    assert!(decide_move(false, true, false, up).is_none());
    assert!(decide_move(false, true, true, "nope").is_none());
}
