use document_parser::text::contains_chars;
use document_parser::title::return_title;

const MARKERS: [&str; 4] = ["RESOLUÇÃO", "Cronograma", "Calendário", "Calendario"];

fn chars(s: &str) -> Vec<char> {
    s.chars().collect()
}

#[test]
fn a_needle_is_found_where_it_stands() {
    assert!(contains_chars(&chars("abcabd"), &chars("abd")));
    assert!(contains_chars(&chars("abc"), &chars("abc")));
    assert!(contains_chars(&chars("abc"), &chars("")));
    assert!(contains_chars(&chars(""), &chars("")));
    assert!(contains_chars(&chars("xRESOLUÇÃOy"), &chars("RESOLUÇÃO")));
    assert!(!contains_chars(&chars("abc"), &chars("abcd")));
    assert!(!contains_chars(&chars("abc"), &chars("ac")));
    assert!(!contains_chars(&chars(""), &chars("a")));
    assert!(!contains_chars(&chars("aab"), &chars("aba")));
}

#[test]
fn containing_agrees_with_the_standard_library() {
    let hays = ["", "a", "ab", "aab", "abab", "RESOLUÇÃO Nº 5", "ção", "çã"];
    let needles = ["", "a", "b", "ab", "ba", "aba", "ÇÃO", "ã", "º 5"];
    for h in hays {
        for n in needles {
            assert_eq!(contains_chars(&chars(h), &chars(n)), h.contains(n), "{:?} in {:?}", n, h);
        }
    }
}

#[test]
fn the_title_is_the_first_line_with_a_marker() {
    let text = "UNIVERSIDADE\nRESOLUÇÃO CEPE 12\nCronograma de aulas\n";
    assert_eq!(return_title(text, &MARKERS), Some("RESOLUÇÃO CEPE 12".to_string()));
}

#[test]
fn the_order_of_the_lines_decides_not_the_order_of_the_markers() {
    let text = "Calendario 2024\nRESOLUÇÃO 3\n";
    assert_eq!(return_title(text, &MARKERS), Some("Calendario 2024".to_string()));
    assert_eq!(
        return_title(text, &["RESOLUÇÃO", "Calendario"]),
        Some("Calendario 2024".to_string())
    );
}

#[test]
fn a_marker_may_stand_anywhere_in_the_line() {
    assert_eq!(
        return_title("a\nanexo ao Cronograma geral\nb", &MARKERS),
        Some("anexo ao Cronograma geral".to_string())
    );
}

#[test]
fn markers_are_matched_as_they_are_written() {
    assert_eq!(return_title("resolução 5\ncronograma\n", &MARKERS), None);
    assert_eq!(return_title("RESOLUCAO 5", &MARKERS), None);
}

#[test]
fn no_marker_no_title() {
    assert_eq!(return_title("nada aqui\nnem aqui", &MARKERS), None);
    assert_eq!(return_title("", &MARKERS), None);
    assert_eq!(return_title("RESOLUÇÃO", &[]), None);
}

#[test]
fn a_carriage_return_before_the_line_feed_is_no_part_of_the_title() {
    assert_eq!(
        return_title("x\r\nRESOLUÇÃO 7\r\ny", &MARKERS),
        Some("RESOLUÇÃO 7".to_string())
    );
}

#[test]
fn the_empty_marker_is_in_every_line() {
    assert_eq!(return_title("primeira\nsegunda", &[""]), Some("primeira".to_string()));
    assert_eq!(return_title("\nsegunda", &[""]), Some("".to_string()));
    assert_eq!(return_title("", &[""]), None);
}
