use minesweeper::game::board::Board;
use minesweeper::game::{Size, Stage};
use minesweeper::ui::button::Button;
use minesweeper::ui::end_menu::{self, EndMenuHandler};
use minesweeper::ui::main_menu::{self, MainMenuHandler};
use minesweeper::ui::text::Text;
use minesweeper::ui::{Area, POS_CENTERED};

fn three_buttons() -> Vec<Button> {
    vec![
        Button::new(POS_CENTERED, 300, 0, 0, 64, 5, (100, 30), 800, 600),
        Button::new(POS_CENTERED, 400, 0, 0, 64, 5, (120, 30), 800, 600),
        Button::new(POS_CENTERED, 500, 0, 0, 64, 5, (90, 30), 800, 600),
    ]
}

#[test]
fn centred_is_minus_one() {
    assert_eq!(POS_CENTERED, -1);
}

#[test]
fn button_centred_across_the_window() {
    let button = Button::new(POS_CENTERED, 300, 0, 0, 64, 5, (100, 30), 800, 600);
    assert_eq!(
        button,
        Button { x: 240, y: 300, w: 64, scale: 5, text_rect: Area { x: 350, y: 320, w: 100, h: 30 } }
    );
}

#[test]
fn button_centred_down_the_window_with_offsets() {
    let button = Button::new(10, POS_CENTERED, 5, 7, 64, 5, (100, 30), 800, 600);
    assert_eq!(
        button,
        Button { x: 15, y: 267, w: 64, scale: 5, text_rect: Area { x: 125, y: 287, w: 100, h: 30 } }
    );
}

#[test]
fn button_wider_than_its_window_rounds_towards_zero() {
    // (101 - 320) / 2 = -109.5, which becomes -109
    let button = Button::new(POS_CENTERED, 0, 0, 0, 64, 5, (0, 0), 101, 600);
    assert_eq!(button.x, -109);
    assert_eq!(button.text_rect, Area { x: 51, y: 20, w: 0, h: 0 });
}

#[test]
fn button_text_wider_than_the_button_rounds_towards_zero() {
    // (80 - 85) / 2 = -2.5, which becomes -2
    let button = Button::new(100, 100, 0, 0, 16, 5, (85, 10), 800, 600);
    assert_eq!(button.text_rect, Area { x: 98, y: 120, w: 85, h: 10 });
}

#[test]
fn button_leaves_its_edges_out() {
    let button = Button::new(POS_CENTERED, 300, 0, 0, 64, 5, (100, 30), 800, 600);
    // the button covers 240 < x < 560 and 300 < y < 380
    assert!(button.inside(241, 301));
    assert!(button.inside(559, 379));
    assert!(button.inside(400, 340));
    assert!(!button.inside(240, 340));
    assert!(!button.inside(560, 340));
    assert!(!button.inside(400, 300));
    assert!(!button.inside(400, 380));
    assert!(!button.inside(0, 0));
}

#[test]
fn button_inside_does_not_overflow() {
    let button =
        Button { x: i32::MAX, y: i32::MAX, w: i32::MAX, scale: i32::MAX, text_rect: Area { x: 0, y: 0, w: 0, h: 0 } };
    assert!(!button.inside(i32::MAX, i32::MAX));
    assert!(!button.inside(0, 0));
    let wide = Button { x: -5, y: -5, w: i32::MAX, scale: i32::MAX, text_rect: Area { x: 0, y: 0, w: 0, h: 0 } };
    assert!(wide.inside(i32::MAX, i32::MAX));
    assert!(!wide.inside(-5, 0));
    let inverted = Button { x: 0, y: 0, w: 10, scale: -1, text_rect: Area { x: 0, y: 0, w: 0, h: 0 } };
    assert!(!inverted.inside(-5, -5));
}

#[test]
fn button_is_drawn_in_three_pieces() {
    let button = Button::new(POS_CENTERED, 300, 0, 0, 64, 5, (100, 30), 800, 600);
    assert_eq!(
        button.render(),
        vec![
            (Area { x: 0, y: 0, w: 16, h: 16 }, Area { x: 240, y: 300, w: 80, h: 80 }),
            (Area { x: 16, y: 0, w: 16, h: 16 }, Area { x: 320, y: 300, w: 160, h: 80 }),
            (Area { x: 32, y: 0, w: 16, h: 16 }, Area { x: 480, y: 300, w: 80, h: 80 }),
        ]
    );
}

#[test]
fn narrow_button_is_drawn_without_a_middle() {
    let button = Button::new(240, 300, 0, 0, 32, 5, (10, 10), 800, 600);
    assert_eq!(
        button.render(),
        vec![
            (Area { x: 0, y: 0, w: 16, h: 16 }, Area { x: 240, y: 300, w: 80, h: 80 }),
            (Area { x: 32, y: 0, w: 16, h: 16 }, Area { x: 320, y: 300, w: 80, h: 80 }),
        ]
    );
}

#[test]
fn main_menu_click_picks_the_button_under_the_point() {
    let btns = three_buttons();
    assert_eq!(MainMenuHandler::handle_clicks(&btns, 400, 340), Some(main_menu::ClickStatus::Small));
    assert_eq!(MainMenuHandler::handle_clicks(&btns, 400, 440), Some(main_menu::ClickStatus::Normal));
    assert_eq!(MainMenuHandler::handle_clicks(&btns, 400, 540), Some(main_menu::ClickStatus::Large));
    assert_eq!(MainMenuHandler::handle_clicks(&btns, 400, 390), None);
    assert_eq!(MainMenuHandler::handle_clicks(&btns, 100, 340), None);
    assert_eq!(MainMenuHandler::handle_clicks(&btns, 400, 600), None);
}

#[test]
fn main_menu_prefers_the_first_of_overlapping_buttons() {
    let button = Button::new(0, 0, 0, 0, 64, 5, (0, 0), 800, 600);
    let btns = vec![button, button, button];
    assert_eq!(MainMenuHandler::handle_clicks(&btns, 10, 10), Some(main_menu::ClickStatus::Small));
}

#[test]
fn main_menu_choice_gives_the_size() {
    assert_eq!(main_menu::ClickStatus::Small.size(), Size::Small);
    assert_eq!(main_menu::ClickStatus::Normal.size(), Size::Normal);
    assert_eq!(main_menu::ClickStatus::Large.size(), Size::Large);
}

#[test]
fn end_menu_click_picks_the_button_under_the_point() {
    let btns = three_buttons();
    assert_eq!(EndMenuHandler::handle_clicks(&btns, 400, 340), Some(end_menu::ClickStatus::Menu));
    assert_eq!(EndMenuHandler::handle_clicks(&btns, 400, 440), Some(end_menu::ClickStatus::Exit));
    assert_eq!(EndMenuHandler::handle_clicks(&btns, 400, 540), Some(end_menu::ClickStatus::PlayAgain));
    assert_eq!(EndMenuHandler::handle_clicks(&btns, 400, 299), None);
    assert_eq!(EndMenuHandler::handle_clicks(&btns, 600, 440), None);
}

#[test]
fn end_menu_title_tells_how_the_game_ended() {
    assert_eq!(end_menu::title(&Stage::Lose), "You Lose!");
    assert_eq!(end_menu::title(&Stage::Win), "You Win!");
    assert_eq!(end_menu::title(&Stage::Playing), "You Win!");
}

#[test]
fn text_centred_across_the_window() {
    let text = Text::new(POS_CENTERED, 50, 0, 0, "MINESWEEPER", (400, 90), 800, 600);
    assert_eq!(text.text, "MINESWEEPER");
    assert_eq!(text.prev_text, "MINESWEEPER");
    assert_eq!(text.text_rect, Area { x: 200, y: 54, w: 400, h: 90 });
}

#[test]
fn text_at_a_fixed_place_with_offsets() {
    let text = Text::new(5, 560, 400, -3, "v1", (121, 20), 800, 600);
    assert_eq!(text.text_rect, Area { x: 405, y: 561, w: 121, h: 20 });
}

#[test]
fn text_centred_down_the_window() {
    // (600 - 21) / 2 = 289 (rounded down), then four pixels further down
    let text = Text::new(0, POS_CENTERED, 0, 0, "x", (7, 21), 800, 600);
    assert_eq!(text.text_rect, Area { x: 0, y: 293, w: 7, h: 21 });
}

#[test]
fn text_is_stale_until_it_is_drawn_again() {
    let mut text = Text::new(0, 0, 0, 0, "Flags: 10", (50, 10), 800, 600);
    assert!(!text.stale());
    text.set_text("Flags: 9");
    assert_eq!(text.text, "Flags: 9");
    assert_eq!(text.prev_text, "Flags: 10");
    assert!(text.stale());
    text.render();
    assert_eq!(text.prev_text, "Flags: 9");
    assert!(!text.stale());
    text.set_text("Flags: 9");
    assert!(!text.stale());
    assert_eq!(text.text_rect, Area { x: 0, y: 4, w: 50, h: 10 });
}

#[test]
fn picture_of_the_board_has_its_rows_along_the_width() {
    assert_eq!(Board::new(Size::Small).extent(), (216, 216));
    assert_eq!(Board::new(Size::Normal).extent(), (384, 384));
    assert_eq!(Board::new(Size::Large).extent(), (720, 432));
}

#[test]
fn corner_of_a_tile_is_found_again_by_inside() {
    let board = Board::new(Size::Large);
    assert_eq!(board.corner((0, 0)), (0, 0));
    assert_eq!(board.corner((17, 29)), (696, 408));
    assert_eq!(board.corner((3, 10)), (240, 72));
    for col in 0..18 {
        for row in 0..30 {
            let (x, y) = board.corner((col, row));
            assert_eq!(board.inside(x, y), Some((col, row)));
            assert_eq!(board.inside(x + 23, y + 23), Some((col, row)));
        }
    }
}

#[test]
fn checked_button_is_the_button_where_it_fits() {
    assert_eq!(
        Button::checked_new(POS_CENTERED, 300, 0, 0, 64, 5, (100, 30), 800, 600),
        Some(Button::new(POS_CENTERED, 300, 0, 0, 64, 5, (100, 30), 800, 600))
    );
    assert_eq!(
        Button::checked_new(10, POS_CENTERED, 5, 7, 64, 5, (100, 30), 800, 600),
        Some(Button {
            x: 15,
            y: 267,
            w: 64,
            scale: 5,
            text_rect: Area { x: 125, y: 287, w: 100, h: 30 }
        })
    );
}

#[test]
fn checked_button_is_none_where_a_coordinate_overflows() {
    // the width in pixels, 65536 * 65536, is no i32
    assert_eq!(Button::checked_new(0, 0, 0, 0, 65536, 65536, (0, 0), 800, 600), None);
    // sixteen times the scale is no i32
    assert_eq!(Button::checked_new(0, 0, 0, 0, 0, i32::MAX, (0, 0), 800, 600), None);
    // the offset carries the left edge past the largest i32
    assert_eq!(Button::checked_new(i32::MAX, 0, 1, 0, 64, 5, (0, 0), 800, 600), None);
    // the offset carries the top edge below the smallest i32
    assert_eq!(Button::checked_new(0, i32::MIN, 0, -1, 64, 5, (0, 0), 800, 600), None);
    // the text is wider than any i32
    assert_eq!(Button::checked_new(0, 0, 0, 0, 64, 5, (u32::MAX, 0), 800, 600), None);
    // the text starts past the largest i32
    assert_eq!(Button::checked_new(i32::MAX - 10, 0, 0, 0, 64, 5, (0, 0), 800, 600), None);
    // the text lies below the largest i32
    assert_eq!(Button::checked_new(0, i32::MAX - 10, 0, 0, 64, 5, (0, 0), 800, 600), None);
    // centring subtracts past the smallest i32
    assert_eq!(Button::checked_new(POS_CENTERED, 0, 0, 0, 64, 5, (0, 0), i32::MIN, 600), None);
    assert_eq!(Button::checked_new(0, POS_CENTERED, 0, 0, 64, 5, (0, 0), 800, i32::MIN), None);
    // without centring the size of the window does not matter
    assert!(Button::checked_new(0, 0, 0, 0, 64, 5, (0, 0), i32::MIN, i32::MIN).is_some());
}

#[test]
fn checked_render_is_render_where_the_button_can_be_drawn() {
    let button = Button::new(POS_CENTERED, 300, 0, 0, 64, 5, (100, 30), 800, 600);
    assert_eq!(button.checked_render(), Some(button.render()));
    let narrow = Button::new(240, 300, 0, 0, 32, 5, (10, 10), 800, 600);
    assert_eq!(narrow.checked_render().map(|parts| parts.len()), Some(2));
    let unscaled = Button { x: 0, y: 0, w: 64, scale: 0, text_rect: Area { x: 0, y: 0, w: 0, h: 0 } };
    assert_eq!(unscaled.checked_render().map(|parts| parts.len()), Some(3));
}

#[test]
fn checked_render_is_none_where_the_button_cannot_be_drawn() {
    let blank = Area { x: 0, y: 0, w: 0, h: 0 };
    let negative = Button { x: 0, y: 0, w: 64, scale: -1, text_rect: blank };
    assert_eq!(negative.checked_render(), None);
    let huge = Button { x: 0, y: 0, w: 64, scale: i32::MAX / 8, text_rect: blank };
    assert_eq!(huge.checked_render(), None);
    let far = Button { x: i32::MAX - 100, y: 0, w: 64, scale: 5, text_rect: blank };
    assert_eq!(far.checked_render(), None);
    let thin = Button { x: 0, y: 0, w: i32::MIN, scale: 1, text_rect: blank };
    assert_eq!(thin.checked_render(), None);
}

#[test]
fn checked_text_is_the_text_where_it_fits() {
    let text = Text::checked_new(POS_CENTERED, 50, 0, 0, "MINESWEEPER", (400, 90), 800, 600).unwrap();
    assert_eq!(text.text, "MINESWEEPER");
    assert_eq!(text.prev_text, "MINESWEEPER");
    assert_eq!(text.text_rect, Area { x: 200, y: 54, w: 400, h: 90 });
}

#[test]
fn checked_text_is_none_where_it_cannot_be_placed() {
    // wider than the window in which it is to be centred
    assert!(Text::checked_new(POS_CENTERED, 0, 0, 0, "x", (801, 10), 800, 600).is_none());
    // higher than the window in which it is to be centred
    assert!(Text::checked_new(0, POS_CENTERED, 0, 0, "x", (10, 601), 800, 600).is_none());
    // the offset carries it past the largest i32
    assert!(Text::checked_new(i32::MAX, 0, 1, 0, "x", (10, 10), 800, 600).is_none());
    // the four pixels below carry it past the largest i32
    assert!(Text::checked_new(0, i32::MAX - 3, 0, 0, "x", (10, 10), 800, 600).is_none());
    assert!(Text::checked_new(0, i32::MAX - 4, 0, 0, "x", (10, 10), 800, 600).is_some());
    // not centred, a text may be larger than its window
    assert!(Text::checked_new(0, 0, 0, 0, "x", (801, 601), 800, 600).is_some());
}
