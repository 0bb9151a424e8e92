use rat_http::stack::{TileStack, STACK_CAPACITY};
use rat_http::tile::{DoorState, Tile};
use rat_http::token::{Token, TokenType};

fn stack_of(kinds: &[TokenType]) -> TileStack {
    let mut stack = TileStack::new();
    for kind in kinds {
        stack.push(Token::new(*kind));
    }
    stack
}

fn kinds_of(stack: &TileStack) -> Vec<TokenType> {
    let mut kinds = Vec::new();
    let mut i = 0;
    while let Some(token) = stack.get(i) {
        kinds.push(token.token_type);
        i += 1;
    }
    kinds
}

#[test]
fn new_stack_is_empty() {
    let stack = TileStack::new();
    assert_eq!(stack.len(), 0);
    assert!(stack.is_empty());
    assert!(stack.has_room());
    assert_eq!(stack.get(0), None);
    assert!(!stack.holds_player());
}

#[test]
fn stack_capacity_is_one_hundred() {
    assert_eq!(STACK_CAPACITY, 100);
}

#[test]
fn push_keeps_the_order_of_arrival() {
    let stack = stack_of(&[TokenType::Item, TokenType::Player, TokenType::Monster]);
    assert_eq!(stack.len(), 3);
    assert_eq!(stack.get(0), Some(Token { token_type: TokenType::Item }));
    assert_eq!(stack.get(1), Some(Token { token_type: TokenType::Player }));
    assert_eq!(stack.get(2), Some(Token { token_type: TokenType::Monster }));
    assert_eq!(stack.get(3), None);
}

#[test]
fn push_of_an_empty_slot_changes_nothing() {
    let mut stack = stack_of(&[TokenType::Monster]);
    stack.push(Token::new(TokenType::Empty));
    assert_eq!(kinds_of(&stack), vec![TokenType::Monster]);
    let mut empty = TileStack::new();
    empty.push(Token::new(TokenType::Empty));
    assert!(empty.is_empty());
    assert_eq!(empty, TileStack::new());
}

#[test]
fn stack_is_full_at_its_capacity() {
    let mut stack = TileStack::new();
    for _ in 0..STACK_CAPACITY - 1 {
        stack.push(Token::new(TokenType::Item));
    }
    assert_eq!(stack.len(), 99);
    assert!(stack.has_room());
    stack.push(Token::new(TokenType::Monster));
    assert_eq!(stack.len(), 100);
    assert!(!stack.has_room());
    stack.push(Token::new(TokenType::Empty));
    assert_eq!(stack.len(), 100);
    assert_eq!(stack.get(99), Some(Token::new(TokenType::Monster)));
}

#[test]
fn holds_player_looks_at_every_height() {
    assert!(stack_of(&[TokenType::Player]).holds_player());
    assert!(stack_of(&[TokenType::Item, TokenType::Monster, TokenType::Player]).holds_player());
    assert!(stack_of(&[TokenType::Player, TokenType::Monster]).holds_player());
    assert!(!stack_of(&[TokenType::Item, TokenType::Monster]).holds_player());
}

#[test]
fn remove_player_leaves_the_others_in_order() {
    let mut stack = stack_of(&[TokenType::Item, TokenType::Player, TokenType::Monster]);
    assert!(stack.remove_player());
    assert_eq!(kinds_of(&stack), vec![TokenType::Item, TokenType::Monster]);
    assert!(!stack.holds_player());
    assert!(!stack.remove_player());
    assert_eq!(kinds_of(&stack), vec![TokenType::Item, TokenType::Monster]);
}

#[test]
fn remove_player_takes_the_lowest_player_token() {
    let mut stack = stack_of(&[
        TokenType::Monster,
        TokenType::Player,
        TokenType::Item,
        TokenType::Player,
    ]);
    assert!(stack.remove_player());
    assert_eq!(kinds_of(&stack), vec![TokenType::Monster, TokenType::Item, TokenType::Player]);
    assert!(stack.remove_player());
    assert_eq!(kinds_of(&stack), vec![TokenType::Monster, TokenType::Item]);
}

#[test]
fn remove_player_on_an_empty_stack_finds_nothing() {
    let mut stack = TileStack::new();
    assert!(!stack.remove_player());
    assert!(stack.is_empty());
}

#[test]
fn stack_clone_is_equal() {
    let stack = stack_of(&[TokenType::Item, TokenType::Player]);
    let copy = stack.clone();
    assert_eq!(copy, stack);
    assert_eq!(kinds_of(&copy), vec![TokenType::Item, TokenType::Player]);
}

#[test]
fn token_kinds_are_told_apart() {
    assert!(Token::new(TokenType::Player).marks_player());
    assert!(!Token::new(TokenType::Monster).marks_player());
    assert!(!Token::new(TokenType::Item).marks_player());
    assert!(!Token::new(TokenType::Empty).marks_player());
    assert!(Token::new(TokenType::Player).marks_occupant());
    assert!(Token::new(TokenType::Monster).marks_occupant());
    assert!(Token::new(TokenType::Item).marks_occupant());
    assert!(!Token::new(TokenType::Empty).marks_occupant());
}

#[test]
fn door_states_that_let_through() {
    assert!(DoorState::Open.is_passable());
    assert!(DoorState::Broken.is_passable());
    assert!(!DoorState::Closed.is_passable());
    assert!(!DoorState::ClosedLocked.is_passable());
}

#[test]
fn tiles_that_can_be_entered() {
    assert!(Tile::Floor(TileStack::new()).is_passable());
    assert!(Tile::Door(DoorState::Open, TileStack::new()).is_passable());
    assert!(Tile::Door(DoorState::Broken, TileStack::new()).is_passable());
    assert!(!Tile::Door(DoorState::Closed, TileStack::new()).is_passable());
    assert!(!Tile::Door(DoorState::ClosedLocked, TileStack::new()).is_passable());
    assert!(!Tile::Wall.is_passable());
    assert!(!Tile::Void.is_passable());
}

#[test]
fn a_floor_with_tokens_can_be_entered() {
    let tile = Tile::Floor(stack_of(&[TokenType::Monster, TokenType::Item]));
    assert!(tile.is_passable());
}

#[test]
fn only_floors_and_doors_carry_a_stack() {
    let stack = stack_of(&[TokenType::Item]);
    assert_eq!(Tile::Floor(stack.clone()).stack(), Some(&stack));
    assert_eq!(Tile::Door(DoorState::Closed, stack.clone()).stack(), Some(&stack));
    assert_eq!(Tile::Wall.stack(), None);
    assert_eq!(Tile::Void.stack(), None);
}

#[test]
fn place_puts_a_token_on_a_tile_with_a_stack() {
    let mut floor = Tile::Floor(stack_of(&[TokenType::Item]));
    assert!(floor.place(Token::new(TokenType::Monster)));
    assert_eq!(floor, Tile::Floor(stack_of(&[TokenType::Item, TokenType::Monster])));
    let mut door = Tile::Door(DoorState::ClosedLocked, TileStack::new());
    assert!(door.place(Token::new(TokenType::Item)));
    assert_eq!(door, Tile::Door(DoorState::ClosedLocked, stack_of(&[TokenType::Item])));
}

#[test]
fn place_leaves_a_tile_without_a_stack_as_it_is() {
    let mut wall = Tile::Wall;
    assert!(!wall.place(Token::new(TokenType::Monster)));
    assert_eq!(wall, Tile::Wall);
    let mut void = Tile::Void;
    assert!(!void.place(Token::new(TokenType::Player)));
    assert_eq!(void, Tile::Void);
}

#[test]
fn tile_remove_player_keeps_terrain_and_other_tokens() {
    let mut door = Tile::Door(DoorState::Open, stack_of(&[TokenType::Monster, TokenType::Player]));
    assert!(door.holds_player());
    assert!(door.remove_player());
    assert_eq!(door, Tile::Door(DoorState::Open, stack_of(&[TokenType::Monster])));
    assert!(!door.holds_player());
    assert!(!door.remove_player());
    let mut wall = Tile::Wall;
    assert!(!wall.holds_player());
    assert!(!wall.remove_player());
    assert_eq!(wall, Tile::Wall);
}

#[test]
fn a_tile_is_crowded_when_it_can_be_entered_and_is_full() {
    let mut full = TileStack::new();
    for _ in 0..STACK_CAPACITY {
        full.push(Token::new(TokenType::Item));
    }
    assert!(Tile::Floor(full.clone()).is_crowded());
    assert!(Tile::Door(DoorState::Open, full.clone()).is_crowded());
    assert!(!Tile::Door(DoorState::Closed, full.clone()).is_crowded());
    assert!(!Tile::Floor(stack_of(&[TokenType::Item])).is_crowded());
    assert!(!Tile::Wall.is_crowded());
    assert!(!Tile::Void.is_crowded());
}

#[test]
fn tile_clone_is_equal() {
    let tile = Tile::Door(DoorState::Broken, stack_of(&[TokenType::Item]));
    assert_eq!(tile.clone(), tile);
    assert_eq!(Tile::Wall.clone(), Tile::Wall);
    assert_eq!(Tile::Void.clone(), Tile::Void);
}
