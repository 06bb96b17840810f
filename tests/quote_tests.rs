use pgvpd::quote::{escape_literal, escape_set_value, quote_ident, QuoteError};

#[test]
fn escape_literal_valid_values() {
    assert_eq!(escape_literal("tenant_a").unwrap(), "'tenant_a'");
    assert_eq!(escape_literal("my-tenant").unwrap(), "'my-tenant'");
    assert_eq!(escape_literal("tenant.sub").unwrap(), "'tenant.sub'");
    assert_eq!(escape_literal("abc123").unwrap(), "'abc123'");
}

#[test]
fn escape_literal_rejects_special_chars() {
    assert!(escape_literal("'; DROP TABLE--").is_err());
    assert!(escape_literal("tenant\x00id").is_err());
    assert!(escape_literal("tenant id").is_err());
    assert!(escape_literal("tenant/id").is_err());
    assert!(escape_literal("{a,b}").is_err());
    assert_eq!(escape_literal("é"), Err(QuoteError::InvalidLiteral));
}

#[test]
fn escape_literal_empty_is_two_quotes() {
    assert_eq!(escape_literal("").unwrap(), "''");
}

#[test]
fn escape_set_value_allows_anything() {
    assert_eq!(escape_set_value("simple"), "'simple'");
    assert_eq!(escape_set_value("{a,b,c}"), "'{a,b,c}'");
    assert_eq!(escape_set_value("it's"), "'it''s'");
    assert_eq!(escape_set_value("a'b'c"), "'a''b''c'");
    assert_eq!(escape_set_value("''"), "''''''");
    assert_eq!(escape_set_value(""), "''");
}

#[test]
fn quote_ident_valid() {
    assert_eq!(quote_ident("my_table").unwrap(), "\"my_table\"");
    assert_eq!(quote_ident("col1").unwrap(), "\"col1\"");
}

#[test]
fn quote_ident_rejects_special_chars() {
    assert!(quote_ident("my table").is_err());
    assert!(quote_ident("my-table").is_err());
    assert!(quote_ident("a;b").is_err());
    assert_eq!(quote_ident("a\"b"), Err(QuoteError::InvalidIdentifier));
}
