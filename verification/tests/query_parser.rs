use atlas::parser::{parse_query, Directive, QueryError};
use atlas::query::{
    Comparator, QueryExpr, QueryField, QueryMode, QueryPreset, SortDirection, SortField,
};

#[test]
fn parses_preset_only() {
    let query = parse_query("services", 25).unwrap();
    assert_eq!(query.mode, QueryMode::Filter);
    assert_eq!(query.preset, Some(QueryPreset::Services));
    assert!(query.expr.is_none());
    assert_eq!(query.limit, 25);
    assert_eq!(query.offset, 0);
    assert!(!query.explain);
}

#[test]
fn parses_boolean_expression_with_parentheses() {
    let query = parse_query(
        r#"services technology=cloudflare AND (severity=high OR criticality=critical)"#,
        25,
    )
    .unwrap();

    assert_eq!(query.preset, Some(QueryPreset::Services));
    match query.expr {
        Some(QueryExpr::And(items)) => assert_eq!(items.len(), 2),
        other => panic!("expr inesperada: {other:?}"),
    }
}

#[test]
fn parses_quoted_values() {
    let query = parse_query(r#"label~"admin panel""#, 10).unwrap();

    match query.expr {
        Some(QueryExpr::Clause(clause)) => {
            assert_eq!(clause.field, QueryField::Label);
            assert_eq!(clause.comparator, Comparator::Contains);
            assert_eq!(clause.value, "admin panel");
        }
        other => panic!("expr inesperada: {other:?}"),
    }
}

#[test]
fn parses_order_limit_offset_explain() {
    let query = parse_query(
        r#"EXPLAIN services technology=cloudflare ORDER BY degree DESC LIMIT 5 OFFSET 2"#,
        25,
    )
    .unwrap();

    assert!(query.explain);
    assert_eq!(query.limit, 5);
    assert_eq!(query.offset, 2);

    let sort = query.sort.expect("sort requerida");
    assert_eq!(sort.field, SortField::Degree);
    assert_eq!(sort.direction, SortDirection::Desc);
}

#[test]
fn parses_not_expression() {
    let query = parse_query(r#"services NOT state=resolved"#, 20).unwrap();

    match query.expr {
        Some(QueryExpr::Not(inner)) => {
            assert!(matches!(*inner, QueryExpr::Clause(_)));
        }
        other => panic!("expr inesperada: {other:?}"),
    }
}

#[test]
fn parses_expand_directive() {
    let query = parse_query(r#"services technology=cloudflare EXPAND 2"#, 20).unwrap();
    assert_eq!(query.expand_depth, 2);
    assert_eq!(query.mode, QueryMode::Filter);
}

#[test]
fn parses_neighbors_mode() {
    let query = parse_query(r#"NEIGHBORS label=example.com DEPTH 3"#, 20).unwrap();
    assert_eq!(query.mode, QueryMode::Neighbors);
    assert_eq!(query.neighbors_depth, 3);
}

#[test]
fn parses_path_mode() {
    let query = parse_query(r#"PATH example.com -> cloudflare"#, 20).unwrap();
    assert_eq!(query.mode, QueryMode::Path);
    assert_eq!(query.path_from.as_deref(), Some("example.com"));
    assert_eq!(query.path_to.as_deref(), Some("cloudflare"));
}

#[test]
fn rejects_malformed_queries() {
    assert_eq!(parse_query("   ", 10).unwrap_err(), QueryError::Empty);
    assert_eq!(
        parse_query(r#"label~"open"#, 10).unwrap_err(),
        QueryError::UnterminatedString
    );
    assert_eq!(
        parse_query("services (label=a", 10).unwrap_err(),
        QueryError::ExpectedClosingParen
    );
    assert_eq!(
        parse_query("services )", 10).unwrap_err(),
        QueryError::UnexpectedClosingParen
    );
    assert_eq!(
        parse_query("color=red", 10).unwrap_err(),
        QueryError::UnsupportedField
    );
    assert_eq!(
        parse_query("label ! x", 10).unwrap_err(),
        QueryError::UnsupportedOperator
    );
    assert_eq!(
        parse_query("services LIMIT ten", 10).unwrap_err(),
        QueryError::NotNumeric(Directive::Limit)
    );
    assert_eq!(
        parse_query("services ORDER degree", 10).unwrap_err(),
        QueryError::ExpectedBy
    );
    assert_eq!(
        parse_query("services ORDER BY color", 10).unwrap_err(),
        QueryError::UnsupportedSortField
    );
    assert_eq!(
        parse_query("PATH a to b", 10).unwrap_err(),
        QueryError::PathSyntax
    );
    assert_eq!(
        parse_query("label=", 10).unwrap_err(),
        QueryError::UnexpectedEnd
    );
}

#[test]
fn clause_forms_and_boolean_normalization() {
    let q = parse_query("tls_enabled= YES", 10).unwrap();
    match q.expr {
        Some(QueryExpr::Clause(c)) => {
            assert_eq!(c.field, QueryField::TlsEnabled);
            assert_eq!(c.comparator, Comparator::Eq);
            assert_eq!(c.value, "true");
        }
        other => panic!("expr inesperada: {other:?}"),
    }
    let q = parse_query("score >= 100", 10).unwrap();
    match q.expr {
        Some(QueryExpr::Clause(c)) => {
            assert_eq!(c.field, QueryField::Score);
            assert_eq!(c.comparator, Comparator::Gte);
            assert_eq!(c.value, "100");
        }
        other => panic!("expr inesperada: {other:?}"),
    }
    let q = parse_query("severity<=high", 10).unwrap();
    match q.expr {
        Some(QueryExpr::Clause(c)) => {
            assert_eq!(c.comparator, Comparator::Lte);
            assert_eq!(c.value, "high");
        }
        other => panic!("expr inesperada: {other:?}"),
    }
}

#[test]
fn implicit_and_or_and_directive_defaults() {
    let q = parse_query("kind=service label~admin OR kind=episode ORDER BY label ASC", 7).unwrap();
    match q.expr {
        Some(QueryExpr::Or(items)) => {
            assert_eq!(items.len(), 2);
            assert!(matches!(&items[0], QueryExpr::And(inner) if inner.len() == 2));
        }
        other => panic!("expr inesperada: {other:?}"),
    }
    assert_eq!(q.limit, 7);
    assert_eq!(q.neighbors_depth, 1);
    let sort = q.sort.unwrap();
    assert_eq!(sort.field, SortField::Label);
    assert_eq!(sort.direction, SortDirection::Asc);
    assert_eq!(q.raw, "kind=service label~admin OR kind=episode ORDER BY label ASC");
}

#[test]
fn rejections_read_as_messages() {
    assert_eq!(parse_query("   ", 10).unwrap_err().message(), "la query no puede estar vacía");
    assert_eq!(parse_query("services LIMIT x", 10).unwrap_err().message(), "LIMIT debe ser numérico");
    assert_eq!(parse_query("services (label=a", 10).unwrap_err().message(), "se esperaba ')'");
    assert_eq!(QueryError::NotNumeric(Directive::Depth).message(), "DEPTH debe ser numérico");
}
