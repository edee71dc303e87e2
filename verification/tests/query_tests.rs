use sdgenbox::query::{
    build_count_query, build_select_query, num_pages, resolve_page, Limits, QueryPiece,
};

#[test]
fn first_page_starts_at_offset_zero() {
    let limits = Limits::from_page(1, 18);
    assert_eq!(limits.offset, 0);
    assert_eq!(limits.limit, 18);
}

#[test]
fn third_page_skips_two_pages() {
    let limits = Limits::from_page(3, 18);
    assert_eq!(limits.offset, 36);
    assert_eq!(limits.limit, 18);
}

#[test]
fn page_zero_clamps_to_the_first_page() {
    let limits = Limits::from_page(0, 18);
    assert_eq!(limits.offset, 0);
    assert_eq!(limits.limit, 18);
}

#[test]
fn absent_page_resolves_to_one() {
    assert_eq!(resolve_page(None), 1);
    assert_eq!(resolve_page(Some(0)), 1);
    assert_eq!(resolve_page(Some(7)), 7);
}

#[test]
fn page_count_rounds_up() {
    assert_eq!(num_pages(0, 18), 0);
    assert_eq!(num_pages(1, 18), 1);
    assert_eq!(num_pages(18, 18), 1);
    assert_eq!(num_pages(19, 18), 2);
    assert_eq!(num_pages(36, 18), 2);
    assert_eq!(num_pages(37, 18), 3);
}

#[test]
fn empty_search_builds_the_same_queries_as_no_search() {
    assert_eq!(build_count_query(Some("")), build_count_query(None));
    let limits = Limits::from_page(1, 18);
    assert_eq!(
        build_select_query(Some(""), &limits),
        build_select_query(None, &limits)
    );
}

#[test]
fn absent_search_counts_without_a_filter() {
    assert_eq!(
        build_count_query(None),
        vec![QueryPiece::Sql("SELECT count(*) FROM image".to_string())]
    );
}

#[test]
fn search_text_is_uppercased_and_bound_as_a_pattern() {
    let pieces = build_count_query(Some("abc"));
    let bound: Vec<&QueryPiece> = pieces
        .iter()
        .filter(|p| matches!(p, QueryPiece::BindText(_)))
        .collect();
    assert_eq!(bound.len(), 6);
    for piece in bound {
        assert_eq!(piece, &QueryPiece::BindText("%ABC%".to_string()));
    }
}

#[test]
fn filtered_count_query_has_the_expected_pieces() {
    let expected = vec![
        QueryPiece::Sql("SELECT count(*) FROM image".to_string()),
        QueryPiece::Sql(" WHERE cast(id as text) LIKE ".to_string()),
        QueryPiece::BindText("%A1%".to_string()),
        QueryPiece::Sql(" OR upper(prompt) LIKE ".to_string()),
        QueryPiece::BindText("%A1%".to_string()),
        QueryPiece::Sql(" OR upper(negative_prompt) LIKE ".to_string()),
        QueryPiece::BindText("%A1%".to_string()),
        QueryPiece::Sql(" OR upper(sampler) LIKE ".to_string()),
        QueryPiece::BindText("%A1%".to_string()),
        QueryPiece::Sql(" OR upper(model_hash) LIKE ".to_string()),
        QueryPiece::BindText("%A1%".to_string()),
        QueryPiece::Sql(" OR upper(model) LIKE ".to_string()),
        QueryPiece::BindText("%A1%".to_string()),
    ];
    assert_eq!(build_count_query(Some("a1")), expected);
}

#[test]
fn hostile_search_text_reaches_only_bound_parameters() {
    let nasty = "'; DROP TABLE image;--";
    let with_nasty = build_select_query(Some(nasty), &Limits::from_page(1, 18));
    let with_plain = build_select_query(Some("zz"), &Limits::from_page(1, 18));
    assert_eq!(with_nasty.len(), with_plain.len());
    for (a, b) in with_nasty.iter().zip(with_plain.iter()) {
        match (a, b) {
            // The SQL text never changes with the search text.
            (QueryPiece::Sql(sa), QueryPiece::Sql(sb)) => assert_eq!(sa, sb),
            (QueryPiece::BindText(sa), QueryPiece::BindText(sb)) => {
                assert_eq!(sa, "%'; DROP TABLE IMAGE;--%");
                assert_eq!(sb, "%ZZ%");
            }
            (QueryPiece::BindUint(ua), QueryPiece::BindUint(ub)) => assert_eq!(ua, ub),
            _ => panic!("query shapes differ"),
        }
    }
}

#[test]
fn select_query_orders_newest_first_and_pages() {
    let limits = Limits::from_page(3, 18);
    let pieces = build_select_query(None, &limits);
    let expected = vec![
        QueryPiece::Sql(
            "SELECT id, prompt, negative_prompt, steps, sampler, cfg_scale, seed, width, height, model_hash, model, clip_skip, file_path, created_at FROM image"
                .to_string(),
        ),
        QueryPiece::Sql(" ORDER BY created_at DESC, id DESC".to_string()),
        QueryPiece::Sql(" LIMIT ".to_string()),
        QueryPiece::BindUint(18),
        QueryPiece::Sql(" OFFSET ".to_string()),
        QueryPiece::BindUint(36),
    ];
    assert_eq!(pieces, expected);
}
