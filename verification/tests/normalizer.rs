use document_parser::normalizer::{close_line_gaps, collapse_line_runs, normalize, normalize_chars};
use document_parser::text::{char_is_space, lines_of, text_lines_of, to_chars, to_string};

fn chars(s: &str) -> Vec<char> {
    s.chars().collect()
}

fn text(v: &[char]) -> String {
    v.iter().collect()
}

#[test]
fn whitespace_is_what_unicode_calls_whitespace() {
    let mut code: u32 = 0;
    while code <= 0x10FFFF {
        if let Some(c) = char::from_u32(code) {
            assert_eq!(char_is_space(c), c.is_whitespace(), "U+{:04X}", code);
        }
        code += 1;
    }
}

#[test]
fn characters_go_to_a_vector_and_back() {
    assert_eq!(to_chars("março 24"), chars("março 24"));
    assert_eq!(to_chars(""), Vec::<char>::new());
    assert_eq!(to_string(&chars("RESOLUÇÃO")), "RESOLUÇÃO");
    assert_eq!(to_string(&[]), "");
}

#[test]
fn a_text_is_cut_at_its_line_feeds() {
    assert_eq!(lines_of(""), vec![chars("")]);
    assert_eq!(lines_of("a"), vec![chars("a")]);
    assert_eq!(lines_of("a\n"), vec![chars("a"), chars("")]);
    assert_eq!(lines_of("a\n\nb"), vec![chars("a"), chars(""), chars("b")]);
    assert_eq!(lines_of("\n"), vec![chars(""), chars("")]);
    assert_eq!(lines_of("a\r\nb"), vec![chars("a\r"), chars("b")]);
}

#[test]
fn lines_are_the_lines_of_the_standard_library() {
    let texts = [
        "",
        "a",
        "a\n",
        "a\nb",
        "a\n\nb\n",
        "\n",
        "\n\n",
        "a\r\nb\r\n",
        "a\rb\n",
        "a\r",
        "a\r\r\nb",
        "\r\n",
        "x\n\r",
        "um\ndois\r\ntrês",
    ];
    for t in texts {
        let ours: Vec<String> = text_lines_of(t).iter().map(|l| text(l)).collect();
        let theirs: Vec<String> = t.lines().map(|l| l.to_string()).collect();
        assert_eq!(ours, theirs, "{:?}", t);
    }
}

#[test]
fn lone_gaps_are_closed() {
    assert_eq!(text(&close_line_gaps(&chars("H e l l o"))), "Hello");
    assert_eq!(text(&close_line_gaps(&chars("a\tb"))), "ab");
    assert_eq!(text(&close_line_gaps(&chars("a  b"))), "a  b");
    assert_eq!(text(&close_line_gaps(&chars(" a b "))), " ab ");
    assert_eq!(text(&close_line_gaps(&chars("a b  c d"))), "ab  cd");
    assert_eq!(text(&close_line_gaps(&chars(" "))), " ");
    assert_eq!(text(&close_line_gaps(&chars(""))), "");
}

#[test]
fn runs_become_one_blank() {
    assert_eq!(text(&collapse_line_runs(&chars("a  b"))), "a b");
    assert_eq!(text(&collapse_line_runs(&chars("a \t \u{a0}b"))), "a b");
    assert_eq!(text(&collapse_line_runs(&chars("a\tb"))), "a\tb");
    assert_eq!(text(&collapse_line_runs(&chars("\t\ta"))), " a");
    assert_eq!(text(&collapse_line_runs(&chars("a\t\t"))), "a ");
    assert_eq!(text(&collapse_line_runs(&chars("   "))), " ");
    assert_eq!(text(&collapse_line_runs(&chars("\t"))), "\t");
}

#[test]
fn glyph_by_glyph_text_becomes_readable() {
    assert_eq!(normalize("H e l l o  W o r l d"), "Hello World");
    assert_eq!(
        normalize("R E S O L U Ç Ã O  N º  5"),
        "RESOLUÇÃO Nº 5"
    );
    assert_eq!(text(&normalize_chars(&chars("1 2 / 0 1 / 2 0 2 3"))), "12/01/2023");
}

#[test]
fn every_line_is_normalized_by_itself() {
    assert_eq!(normalize("a b\n\nc  d\n"), "ab\n\nc d\n");
    assert_eq!(normalize("a \n b"), "a \n b");
    assert_eq!(normalize("a  \n  b"), "a \n b");
    assert_eq!(normalize(""), "");
    assert_eq!(normalize("\n"), "\n");
    assert_eq!(normalize("x\r\ny"), "x\r\ny");
    assert_eq!(normalize("x \r\ny"), "x \ny");
}

#[test]
fn whitespace_at_the_ends_of_a_line_stays_single() {
    assert_eq!(normalize(" a"), " a");
    assert_eq!(normalize("\ta"), "\ta");
    assert_eq!(normalize("   a"), " a");
    assert_eq!(normalize("a   "), "a ");
    assert_eq!(normalize("    "), " ");
    assert_eq!(normalize(" "), " ");
}

#[test]
fn normalizing_keeps_the_number_of_lines() {
    let texts = [
        "",
        "a",
        "a\n",
        "a b\nc  d\n\n e f \n",
        "\n\n\n",
        "  \n  \n",
        "x\r\ny\r\n",
        "H e l l o\nW o r l d",
        " \n",
        "\n ",
    ];
    for t in texts {
        let out = normalize(t);
        assert_eq!(lines_of(&out).len(), lines_of(t).len(), "{:?}", t);
        assert_eq!(text_lines_of(&out).len(), text_lines_of(t).len(), "{:?}", t);
        assert_eq!(out.lines().count(), t.lines().count(), "{:?}", t);
        assert_eq!(out.matches('\n').count(), t.matches('\n').count(), "{:?}", t);
    }
}

#[test]
fn normalizing_twice_changes_nothing_without_inner_runs() {
    let texts = [
        "",
        "a",
        "H e l l o",
        "  a b c  ",
        "\tabc\t",
        "a b\nc d\n",
        "    ",
        " \n \n",
        "x\r\ny",
    ];
    for t in texts {
        let once = normalize(t);
        assert_eq!(normalize(&once), once, "{:?}", t);
    }
}

#[test]
fn an_inner_run_is_lost_in_the_second_pass() {
    assert_eq!(normalize("a  b"), "a b");
    assert_eq!(normalize("a b"), "ab");
    let once = normalize("H e l l o  W o r l d");
    assert_eq!(once, "Hello World");
    assert_eq!(normalize(&once), "HelloWorld");
    let twice = normalize(&once);
    assert_eq!(normalize(&twice), twice);
}

fn has_inner_run(line: &[char]) -> bool {
    let n = line.len();
    for i in 0..n {
        let in_run = line[i].is_whitespace()
            && ((i > 0 && line[i - 1].is_whitespace())
                || (i + 1 < n && line[i + 1].is_whitespace()));
        let other_before = line[..i].iter().any(|c| !c.is_whitespace());
        let other_after = line[i + 1..].iter().any(|c| !c.is_whitespace());
        if in_run && other_before && other_after {
            return true;
        }
    }
    false
}

#[test]
fn every_short_text_is_normalized_as_the_laws_say() {
    let alphabet = ['a', 'b', ' ', '\t', '\n'];
    let mut texts: Vec<String> = vec![String::new()];
    let mut from = 0;
    for _ in 0..7 {
        let until = texts.len();
        for k in from..until {
            for c in alphabet {
                let mut longer = texts[k].clone();
                longer.push(c);
                texts.push(longer);
            }
        }
        from = until;
    }
    assert_eq!(texts.len(), 97656);
    for t in &texts {
        let once = normalize(t);
        let twice = normalize(&once);
        let thrice = normalize(&twice);
        assert_eq!(once.split('\n').count(), t.split('\n').count(), "{:?}", t);
        assert_eq!(once.lines().count(), t.lines().count(), "{:?}", t);
        let inner = t.split('\n').any(|l| has_inner_run(&chars(l)));
        assert_eq!(twice == once, !inner, "{:?}", t);
        assert_eq!(thrice, twice, "{:?}", t);
    }
}
