use literature::bibtex::entry::BibTeXEntryKind;
use literature::bibtex::parser::BibtexParser;

#[test]
fn bibtex_test_simple_article() {
    let input = r#"
            @article{test_key,
                author = {Author, A.},
                title = "A Test Title",
                year = 2025,
                journal = "Journal of Tests"
            }
        "#;

    let mut parser = BibtexParser::new(input);
    let result = parser.parse().unwrap();

    assert_eq!(result.len(), 1);
    let entry = &result[0];

    assert_eq!(entry.kind, BibTeXEntryKind::Article);
    assert_eq!(entry.citekey, "test_key");
    assert_eq!(entry.get("author").unwrap(), "Author, A.");
    assert_eq!(entry.get("title").unwrap(), "A Test Title");
    assert_eq!(entry.get("year").unwrap(), "2025");
    assert_eq!(entry.get("journal").unwrap(), "Journal of Tests");
}

#[test]
fn bibtex_test_multiple_entries() {
    let input = r#"
            @article{key1, title = "Title 1"}
            @book{key2, title = "Title 2", author={Author B}}
        "#;
    let mut parser = BibtexParser::new(input);
    let result = parser.parse().unwrap();

    assert_eq!(result.len(), 2);
    assert_eq!(result[0].citekey, "key1");
    assert_eq!(result[0].kind, BibTeXEntryKind::Article);
    assert_eq!(result[1].citekey, "key2");
    assert_eq!(result[1].kind, BibTeXEntryKind::Book);
    assert_eq!(result[1].get("author").unwrap(), "Author B");
}

#[test]
fn bibtex_test_nested_braces() {
    let input = r#"
            @misc{nested,
                title = {A Title with {Nested Braces} is Cool},
            }
        "#;
    let mut parser = BibtexParser::new(input);
    let result = parser.parse().unwrap();

    assert_eq!(result.len(), 1);
    let entry = &result[0];
    assert_eq!(entry.get("title").unwrap(), "A Title with {Nested Braces} is Cool");
}

#[test]
fn parser_test_simple_article() {
    let input = r#"
            @article{test_key,
                author = {Author, A.},
                title = "A Test Title", % This is an inline comment
                year = 2025,
                journal = "Journal of Tests", 
            }
        "#;

    let mut parser = BibtexParser::new(input);
    let result = parser.parse().unwrap();

    assert_eq!(result.len(), 1);
    let entry = &result[0];

    assert_eq!(entry.kind, BibTeXEntryKind::Article);
    assert_eq!(entry.citekey, "test_key");
    assert_eq!(entry.get("author").unwrap(), "Author, A.");
    assert_eq!(entry.get("title").unwrap(), "A Test Title");
    assert_eq!(entry.get("year").unwrap(), "2025");
    assert_eq!(entry.get("journal").unwrap(), "Journal of Tests");
}

#[test]
fn parser_test_multiple_entries() {
    let input = r#"
            @article{key1, title = "Title 1"}
            @book{key2, title = "Title 2", author={Author B}}
        "#;
    let mut parser = BibtexParser::new(input);
    let result = parser.parse().unwrap();

    assert_eq!(result.len(), 2);
    assert_eq!(result[0].citekey, "key1");
    assert_eq!(result[0].kind, BibTeXEntryKind::Article);
    assert_eq!(result[1].citekey, "key2");
    assert_eq!(result[1].kind, BibTeXEntryKind::Book);
    assert_eq!(result[1].get("author").unwrap(), "Author B");
}

#[test]
fn parser_test_nested_braces() {
    let input = r#"
            @misc{nested,
                title = {A Title with {Nested Braces} is Cool},
            }
        "#;
    let mut parser = BibtexParser::new(input);
    let result = parser.parse().unwrap();

    assert_eq!(result.len(), 1);
    let entry = &result[0];
    assert_eq!(entry.get("title").unwrap(), "A Title with {Nested Braces} is Cool");
}
