use fancy_table::padstr::{Pad, PadStr};
use fancy_table::{FancyTable, FancyTableBuilder, FancyTableOpts, Layout};

fn mixed(target: usize) -> Vec<usize> {
    let t = FancyTable::create(FancyTableOpts::default())
        .add_column_named("ID", Layout::Slim)
        .add_column_named("NAME", Layout::Fixed(7))
        .add_column_named("A", Layout::Expandable(40))
        .add_column_named("B", Layout::Expandable(40))
        .padding(1)
        .build(target);
    (0..4).map(|i| t.column_width(i).unwrap()).collect()
}

#[test]
fn widths_sum_to_target() {
    for target in [22usize, 23, 30, 51, 80] {
        let w = mixed(target);
        assert_eq!(w.iter().sum::<usize>() + 5, target, "target {target}");
        assert!(w[2] <= 40 && w[3] <= 40);
    }
}

#[test]
fn later_expandable_takes_the_odd_unit() {
    assert_eq!(mixed(23), vec![4, 7, 3, 4]);
    assert_eq!(mixed(25), vec![4, 7, 4, 5]);
}

#[test]
fn fixed_and_slim_do_not_move() {
    for target in [0usize, 10, 22, 50, 200] {
        let w = mixed(target);
        assert_eq!(w[0], 4);
        assert_eq!(w[1], 7);
    }
}

#[test]
fn capped_expandable_leaves_width_unused() {
    let b: FancyTableBuilder = FancyTable::create(FancyTableOpts::default())
        .add_column_named("A", Layout::Expandable(5))
        .padding(0);
    let t = b.build(30);
    assert_eq!(t.column_width(0), Some(5));
}

#[test]
fn target_below_minimum_keeps_minimum() {
    let w = mixed(5);
    assert_eq!(w, vec![4, 7, 3, 3]);
}

#[test]
fn packed_lines_have_exact_width() {
    let texts = ["", "a", "Ala ma kota", "one two three four five six", "x\n\ny", "  spaced   out  "];
    for text in texts {
        for w in 1..12usize {
            for m in 0..4usize {
                for ps in [PadStr::wrapping(text), PadStr::truncating(text)] {
                    let lines = ps.paddify(w, m, Pad::Center);
                    assert!(lines.len() <= m);
                    for l in lines.iter() {
                        assert_eq!(l.chars().count(), w);
                    }
                }
            }
        }
    }
}

#[test]
fn center_puts_odd_space_right() {
    let lines = PadStr::truncating("ab").paddify(5, 1, Pad::Center);
    assert_eq!(lines, vec![" ab  "]);
    let lines = PadStr::truncating("ab").paddify(6, 1, Pad::Center);
    assert_eq!(lines, vec!["  ab  "]);
}

#[test]
fn truncate_clips_to_width() {
    let lines = PadStr::truncating("abcdefgh\nxy").paddify(3, 5, Pad::Left);
    assert_eq!(lines, vec!["abc", " xy"]);
}

#[test]
fn truncate_keeps_blank_lines() {
    let lines = PadStr::truncating("a\n\nb\n").paddify(2, 5, Pad::Right);
    assert_eq!(lines, vec!["a ", "  ", "b "]);
}

#[test]
fn crlf_line_endings() {
    let lines = PadStr::truncating("ab\r\ncd").paddify(3, 5, Pad::Right);
    assert_eq!(lines, vec!["ab ", "cd "]);
}

#[test]
fn empty_text_gives_no_lines() {
    assert!(PadStr::wrapping("").paddify(4, 3, Pad::Left).is_empty());
    assert!(PadStr::truncating("").paddify(4, 3, Pad::Left).is_empty());
}

#[test]
fn zero_lines_allowed_gives_none() {
    assert!(PadStr::wrapping("Ala ma kota").paddify(4, 0, Pad::Left).is_empty());
}

#[test]
fn wrap_splits_on_tabs_and_runs_of_spaces() {
    let lines = PadStr::wrapping("a\t\tb   c").paddify(3, 3, Pad::Right);
    assert_eq!(lines, vec!["a b", "c  "]);
}

#[test]
fn wrap_full_line_flushes() {
    let lines = PadStr::wrapping("abc de").paddify(3, 3, Pad::Right);
    assert_eq!(lines, vec!["abc", "de "]);
}

#[test]
fn wrap_counts_characters_not_bytes() {
    let lines = PadStr::wrapping("ąę łó").paddify(5, 2, Pad::Right);
    assert_eq!(lines, vec!["ąę łó"]);
}
