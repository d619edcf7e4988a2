use document_parser::digest::{title_id, to_hex};

#[test]
fn bytes_in_hexadecimal() {
    assert_eq!(to_hex(&[]), "");
    assert_eq!(to_hex(&[0x00]), "00");
    assert_eq!(to_hex(&[0x0f, 0xf0, 0xa5]), "0ff0a5");
    assert_eq!(to_hex(&[0xde, 0xad, 0xbe, 0xef]), "deadbeef");
    assert_eq!(to_hex(&[0x01, 0x23, 0x45, 0x67, 0x89, 0xab, 0xcd, 0xef]), "0123456789abcdef");
}

#[test]
fn every_byte_as_the_standard_library_writes_it() {
    let mut b: u16 = 0;
    while b < 256 {
        assert_eq!(to_hex(&[b as u8]), format!("{:02x}", b));
        b += 1;
    }
}

#[test]
fn the_identifier_is_the_digest_of_the_title() {
    assert_eq!(
        title_id("abc"),
        "ba7816bf8f01cfea414140de5dae2223b00361a396177a9cb410ff61f20015ad"
    );
    assert_eq!(
        title_id(""),
        "e3b0c44298fc1c149afbf4c8996fb92427ae41e4649b934ca495991b7852b855"
    );
    assert_eq!(
        title_id("RESOLUÇÃO Nº 5"),
        "b2b15ccb86a2a53aca18d926c9c45aee2c317ecddb36ea05d0333a5e7053efc2"
    );
    assert_eq!(
        title_id("RESOLUÇÃO"),
        "162a1469efe024d66638b7686ecd8d35c46c1b913cf1ce8856c4742263215659"
    );
}

#[test]
fn the_same_title_has_the_same_identifier() {
    let one = title_id("Calendário 2024");
    let other = title_id(&"Calendário 2024".to_string());
    assert_eq!(one, other);
    assert_eq!(one.len(), 64);
    assert!(one.chars().all(|c| c.is_ascii_digit() || ('a'..='f').contains(&c)));
}

#[test]
fn other_titles_have_other_identifiers() {
    assert_ne!(title_id("Calendário 2024"), title_id("Calendário 2025"));
    assert_ne!(title_id("Calendário 2024"), title_id("Calendario 2024"));
    assert_ne!(title_id("a"), title_id("a "));
}
