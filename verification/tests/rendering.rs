use game_of_life::Universe;

#[test]
fn render_draws_one_line_per_row() {
    let mut universe = Universe::new();
    universe.set_width(3);
    universe.set_height(2);
    universe.set_cells(&[(0, 1), (1, 2)]);
    assert_eq!(universe.render(), "\u{25FB}\u{25FC}\u{25FB}\n\u{25FB}\u{25FB}\u{25FC}\n");
}

#[test]
fn render_of_a_single_cell() {
    let mut universe = Universe::new();
    universe.set_width(1);
    universe.set_height(1);
    assert_eq!(universe.render(), "◻\n");
    universe.toggle_cell(0, 0);
    assert_eq!(universe.render(), "◼\n");
}

#[test]
fn render_after_reset_shows_only_dead_glyphs() {
    let mut universe = Universe::new();
    universe.reset();
    let text = universe.render();
    let lines: Vec<&str> = text.lines().collect();
    assert_eq!(lines.len(), 64);
    for line in lines {
        assert_eq!(line.chars().count(), 64);
        assert!(line.chars().all(|glyph| glyph == '◻'));
    }
    assert!(text.ends_with('\n'));
    assert_eq!(text.chars().count(), 64 * 65);
}

#[test]
fn render_of_the_seed_pattern() {
    let universe = Universe::new();
    let text = universe.render();
    let glyphs: Vec<char> = text.chars().collect();
    assert_eq!(glyphs.len(), 64 * 65);
    for row in 0..64 {
        for col in 0..64 {
            let i = row * 64 + col;
            let expected = if i % 2 == 0 || i % 7 == 0 { '◼' } else { '◻' };
            assert_eq!(glyphs[row * 65 + col], expected, "row {} column {}", row, col);
        }
        assert_eq!(glyphs[row * 65 + 64], '\n');
    }
}

#[test]
fn render_follows_the_generations() {
    let mut universe = Universe::new();
    universe.set_width(5);
    universe.set_height(5);
    universe.set_cells(&[(2, 1), (2, 2), (2, 3)]);
    assert_eq!(universe.render(), "◻◻◻◻◻\n◻◻◻◻◻\n◻◼◼◼◻\n◻◻◻◻◻\n◻◻◻◻◻\n");
    universe.tick();
    assert_eq!(universe.render(), "◻◻◻◻◻\n◻◻◼◻◻\n◻◻◼◻◻\n◻◻◼◻◻\n◻◻◻◻◻\n");
}
