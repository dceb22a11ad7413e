use zotero_cli::page_info::{page_title_and_doi, percent_encode_bytes};

#[test]
fn page_title_and_doi_reads_a_page() {
    let body = "<html><head><TITLE>\n  A   Study\n of X </TITLE></head><body>doi: 10.1234/ABC.5;</body></html>";
    let (title, doi) = page_title_and_doi(body);
    assert_eq!(title.as_deref(), Some("A Study of X"));
    assert_eq!(doi.as_deref(), Some("10.1234/ABC.5"));
    let (none_title, none_doi) = page_title_and_doi("<title>   </title>");
    assert_eq!(none_title, None);
    assert_eq!(none_doi, None);
}

#[test]
fn percent_encode_bytes_keeps_safe_bytes() {
    assert_eq!(percent_encode_bytes(b"10.1000/a b<c>"), "10.1000/a%20b%3Cc%3E");
    assert_eq!(percent_encode_bytes("é".as_bytes()), "%C3%A9");
}
