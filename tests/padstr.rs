use fancy_table::padstr::{Pad, PadStr};

#[test]
fn justify_center_fit_hspace() {
    let js = PadStr::wrapping("Ala ma kota");
    let lines = js.paddify(6, 2, Pad::Center);
    assert_eq!(lines, vec!["Ala ma", " kota "]);
}

#[test]
fn justify_center_enough_hspace() {
    let js = PadStr::wrapping("Ala ma kota");
    let lines = js.paddify(10, 2, Pad::Center);
    assert_eq!(lines, vec!["  Ala ma  ", "   kota   "]);
}

#[test]
fn justify_center_no_enough_vspace() {
    let js = PadStr::wrapping("Ala ma kota");
    let lines = js.paddify(8, 1, Pad::Center);
    assert_eq!(lines, vec![" Ala ma "])
}

#[test]
fn justify_center_no_enough_hspace() {
    let js = PadStr::wrapping("Ala ma kota");
    let lines = js.paddify(2, 3, Pad::Center);
    assert_eq!(lines, vec!["Al", "ma", "ko"]);
}

#[test]
fn justify_center_no_enough_hspace_and_vspace() {
    let js = PadStr::wrapping("Ala ma kota");
    let lines = js.paddify(1, 2, Pad::Center);
    assert_eq!(lines, vec!["A", "m"]);
}

#[test]
fn justify_left_enough_hspace() {
    let js = PadStr::wrapping("Ala ma kota");
    let lines = js.paddify(10, 2, Pad::Right);
    assert_eq!(lines, vec!["Ala ma    ", "kota      "]);
}

#[test]
fn justify_right_enough_hspace() {
    let js = PadStr::wrapping("Ala ma kota");
    let lines = js.paddify(10, 2, Pad::Left);
    assert_eq!(lines, vec!["    Ala ma", "      kota"]);
}

#[test]
fn justify_right_not_enough_hspace() {
    let js = PadStr::wrapping("Ala ma kota");
    let lines = js.paddify(5, 2, Pad::Left);
    assert_eq!(lines, vec!["  Ala", "   ma"]);
}

#[test]
fn justify_line_with_wrapping() {
    let js = PadStr::wrapping("Ala ma kota\nA kot ma Alę");
    let lines = js.paddify(7, 5, Pad::Right);
    assert_eq!(lines, vec!["Ala ma ", "kota   ", "A kot  ", "ma Alę "]);
}

#[test]
fn justify_line_with_enough_hspace() {
    let js = PadStr::truncating("Ala ma kota\nA kot ma Alę");
    let lines = js.paddify(15, 2, Pad::Left);
    assert_eq!(lines, vec!["    Ala ma kota", "   A kot ma Alę"]);
}

#[test]
fn justify_line_with_not_enough_hspace() {
    let js = PadStr::truncating("Ala ma kota\nA kot ma Alę");
    let lines = js.paddify(8, 2, Pad::Right);
    assert_eq!(lines, vec!["Ala ma k", "A kot ma"]);
}

#[test]
fn justify_line_with_not_enough_hspace_and_vspace() {
    let js = PadStr::truncating("Ala ma kota\nA kot ma Alę\nOna go kocha\nA on ją wcale");
    let lines = js.paddify(8, 3, Pad::Center);
    assert_eq!(lines, vec!["Ala ma k", "A kot ma", "Ona go k"]);
}
