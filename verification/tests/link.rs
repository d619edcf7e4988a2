use std::path::Path;

use document_parser::link::{
    chars_equal, find_extension_dot, find_first, find_last, get_link, is_intake_file,
    MalformedFilename,
};

fn chars(s: &str) -> Vec<char> {
    s.chars().collect()
}

#[test]
fn the_link_holds_the_identifier_and_the_key() {
    assert_eq!(
        get_link("123_abcKEY.pdf"),
        Ok("https://sig.unb.br/sigrh/downloadArquivo?idArquivo=123&key=abcKEY".to_string())
    );
    assert_eq!(
        get_link("4567_9f8e7d"),
        Ok("https://sig.unb.br/sigrh/downloadArquivo?idArquivo=4567&key=9f8e7d".to_string())
    );
}

#[test]
fn a_name_without_an_underscore_is_malformed() {
    assert_eq!(get_link("nodelimiter.pdf"), Err(MalformedFilename));
    assert_eq!(get_link("nodelimiter"), Err(MalformedFilename));
    assert_eq!(get_link(""), Err(MalformedFilename));
    assert_eq!(get_link(".pdf"), Err(MalformedFilename));
    assert_eq!(get_link(".."), Err(MalformedFilename));
    assert_eq!(get_link("abc.p_df"), Err(MalformedFilename));
}

#[test]
fn the_first_underscore_parts_the_identifier_from_the_key() {
    assert_eq!(
        get_link("12_ab_cd.pdf"),
        Ok("https://sig.unb.br/sigrh/downloadArquivo?idArquivo=12&key=ab_cd".to_string())
    );
    assert_eq!(
        get_link("_key.pdf"),
        Ok("https://sig.unb.br/sigrh/downloadArquivo?idArquivo=&key=key".to_string())
    );
    assert_eq!(
        get_link("id_.pdf"),
        Ok("https://sig.unb.br/sigrh/downloadArquivo?idArquivo=id&key=".to_string())
    );
    assert_eq!(
        get_link("_"),
        Ok("https://sig.unb.br/sigrh/downloadArquivo?idArquivo=&key=".to_string())
    );
}

#[test]
fn only_the_last_extension_is_taken_off() {
    assert_eq!(
        get_link("1_a.b.pdf"),
        Ok("https://sig.unb.br/sigrh/downloadArquivo?idArquivo=1&key=a.b".to_string())
    );
    assert_eq!(
        get_link(".1_a"),
        Ok("https://sig.unb.br/sigrh/downloadArquivo?idArquivo=.1&key=a".to_string())
    );
    assert_eq!(
        get_link("1_a."),
        Ok("https://sig.unb.br/sigrh/downloadArquivo?idArquivo=1&key=a".to_string())
    );
}

#[test]
fn the_stem_is_the_stem_of_the_standard_library() {
    let names = [
        "a.pdf", "a", ".a", "..", ".", "a.", "a.b.c", ".a.b", "a..b", "...", "ab_cd.pdf", "_.x",
        "x._", "é_ç.pdf", "", "..a", "a..",
    ];
    for name in names {
        let all = chars(name);
        let stem: String = match find_extension_dot(&all) {
            Some(dot) => all[..dot].iter().collect(),
            None => name.to_string(),
        };
        let extension: Option<String> =
            find_extension_dot(&all).map(|dot| all[dot + 1..].iter().collect());
        let path = Path::new(name);
        if path.file_name().is_some() || name == ".." {
            let theirs = if name == ".." {
                "..".to_string()
            } else {
                path.file_stem().unwrap().to_str().unwrap().to_string()
            };
            assert_eq!(stem, theirs, "{:?}", name);
            assert_eq!(
                extension,
                path.extension().map(|e| e.to_str().unwrap().to_string()),
                "{:?}",
                name
            );
        }
    }
}

#[test]
fn documents_are_the_files_with_the_extension_pdf() {
    assert!(is_intake_file("123_abcKEY.pdf"));
    assert!(is_intake_file("nodelimiter.pdf"));
    assert!(is_intake_file("a.b.pdf"));
    assert!(!is_intake_file("a.PDF"));
    assert!(!is_intake_file("a.pdf.txt"));
    assert!(!is_intake_file("a.pdfx"));
    assert!(!is_intake_file("apdf"));
    assert!(!is_intake_file("pdf"));
    assert!(!is_intake_file(".pdf"));
    assert!(!is_intake_file("a."));
    assert!(!is_intake_file(""));
    assert!(!is_intake_file(".."));
    assert!(is_intake_file("..pdf"));
}

#[test]
fn taking_in_agrees_with_the_standard_library() {
    let names = ["a.pdf", ".pdf", "..pdf", "a.b.pdf", "a.pdf.", "pdf", "a.PDF", "x_y.pdf", "a"];
    for name in names {
        let theirs = Path::new(name).extension().map_or(false, |e| e == "pdf");
        assert_eq!(is_intake_file(name), theirs, "{:?}", name);
    }
}

#[test]
fn first_and_last_of_a_character() {
    assert_eq!(find_first(&chars("a_b_c"), '_'), Some(1));
    assert_eq!(find_last(&chars("a_b_c"), '_'), Some(3));
    assert_eq!(find_first(&chars("_"), '_'), Some(0));
    assert_eq!(find_last(&chars("_"), '_'), Some(0));
    assert_eq!(find_first(&chars("abc"), '_'), None);
    assert_eq!(find_last(&chars("abc"), '_'), None);
    assert_eq!(find_first(&chars(""), '_'), None);
    assert_eq!(find_last(&chars(""), '_'), None);
}

#[test]
fn sequences_are_compared_character_by_character() {
    assert!(chars_equal(&chars("pdf"), &chars("pdf")));
    assert!(chars_equal(&chars(""), &chars("")));
    assert!(!chars_equal(&chars("pdf"), &chars("pdF")));
    assert!(!chars_equal(&chars("pdf"), &chars("pd")));
}
