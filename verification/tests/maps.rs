use kagi::maps::{apply_ranking, order_maps_page, price_sort_key, sort_maps_results, MapsPlace};
use kagi::{MapsOrder, MapsSort};

/// Places in the order the maps API gives them: name, price and rating.
fn fixture_results() -> Vec<(&'static str, MapsPlace)> {
    let place = |price: Option<&str>, rating: Option<u64>| MapsPlace {
        rating,
        distance: None,
        price: price.map(|p| p.to_string()),
    };
    vec![
        ("Example Coffee", place(Some("$$"), Some(47))),
        ("Fine Dining", place(Some("€100+"), Some(45))),
        ("Snack Bar", place(Some("$"), Some(39))),
        ("No Price", place(None, None)),
        ("Steakhouse", place(Some("$$$"), Some(45))),
        ("Bistro", place(Some("€20–60"), Some(42))),
    ]
}

fn reorder<T: Clone>(items: &[T], ranking: &[usize]) -> Vec<T> {
    ranking.iter().map(|&i| items[i].clone()).collect()
}

fn prices(results: &[(&'static str, MapsPlace)], ranking: &[usize]) -> Vec<String> {
    ranking
        .iter()
        .filter_map(|&i| results[i].1.price.clone())
        .collect()
}

#[test]
fn price_sort_orders_symbol_runs_and_amount_ranges_together() {
    let results = fixture_results();
    let places: Vec<MapsPlace> = fixture_results().into_iter().map(|(_, p)| p).collect();

    let ascending = sort_maps_results(&places, Some(MapsSort::Price), None);
    assert_eq!(prices(&results, &ascending), ["$", "$$", "€20–60", "$$$", "€100+"]);

    let descending = sort_maps_results(&places, Some(MapsSort::Price), Some(MapsOrder::Desc));
    assert_eq!(prices(&results, &descending), ["€100+", "$$$", "€20–60", "$$", "$"]);
    assert_eq!(descending.last(), Some(&3));
}

#[test]
fn relevance_sort_honors_ascending_order() {
    let results = fixture_results();
    let places: Vec<MapsPlace> = fixture_results().into_iter().map(|(_, p)| p).collect();
    let names: Vec<&str> = results.iter().map(|(name, _)| *name).collect();

    let unchanged = sort_maps_results(&places, Some(MapsSort::Relevance), None);
    assert_eq!(reorder(&names, &unchanged), names);

    let reversed = sort_maps_results(&places, Some(MapsSort::Relevance), Some(MapsOrder::Asc));
    let expected: Vec<&str> = names.iter().rev().copied().collect();
    assert_eq!(reorder(&names, &reversed), expected);
}

#[test]
fn rating_sort_is_best_first_and_stable() {
    let results = fixture_results();
    let places: Vec<MapsPlace> = fixture_results().into_iter().map(|(_, p)| p).collect();
    let ranking = sort_maps_results(&places, Some(MapsSort::Rating), None);
    let names: Vec<&str> = ranking.iter().map(|&i| results[i].0).collect();
    assert_eq!(
        names,
        ["Example Coffee", "Fine Dining", "Steakhouse", "Bistro", "Snack Bar", "No Price"]
    );
}

#[test]
fn distance_sort_is_nearest_first_with_unknown_last() {
    let places = vec![
        MapsPlace { rating: None, distance: None, price: None },
        MapsPlace { rating: None, distance: Some(900), price: None },
        MapsPlace { rating: None, distance: Some(100), price: None },
    ];
    assert_eq!(sort_maps_results(&places, Some(MapsSort::Distance), None), [2, 1, 0]);
    assert_eq!(sort_maps_results(&places, Some(MapsSort::Distance), Some(MapsOrder::Desc)), [1, 2, 0]);
}

#[test]
fn no_sort_keeps_api_order() {
    let places: Vec<MapsPlace> = fixture_results().into_iter().map(|(_, p)| p).collect();
    assert_eq!(sort_maps_results(&places, None, Some(MapsOrder::Asc)), [0, 1, 2, 3, 4, 5]);
    assert_eq!(sort_maps_results(&Vec::new(), Some(MapsSort::Price), None), Vec::<usize>::new());
}

#[test]
fn price_keys() {
    assert_eq!(price_sort_key("$"), Some(10_000));
    assert_eq!(price_sort_key("$$$"), Some(30_000));
    assert_eq!(price_sort_key(" $ $ "), Some(20_000));
    assert_eq!(price_sort_key("€20–60"), Some(20_020));
    assert_eq!(price_sort_key("€100+"), Some(40_100));
    assert_eq!(price_sort_key("CHF 14"), Some(10_014));
    assert_eq!(price_sort_key("9900"), Some(49_900));
    assert_eq!(price_sort_key("123456789012345678901234567890"), Some(49_900));
    assert_eq!(price_sort_key("   "), None);
    assert_eq!(price_sort_key(""), None);
}

#[test]
fn whole_page_is_ranked_before_the_limit_applies() {
    let names: Vec<&str> = fixture_results().iter().map(|(n, _)| *n).collect();
    let places: Vec<MapsPlace> = fixture_results().into_iter().map(|(_, p)| p).collect();
    let ranking = sort_maps_results(&places, Some(MapsSort::Price), Some(MapsOrder::Asc));
    let top = apply_ranking(names.clone(), &ranking, 2);
    assert_eq!(top, vec!["Snack Bar", "Example Coffee"]);
    let all = apply_ranking(names, &ranking, 100);
    assert_eq!(
        all,
        vec!["Snack Bar", "Example Coffee", "Bistro", "Steakhouse", "Fine Dining", "No Price"]
    );
}

#[test]
fn apply_ranking_with_zero_limit_is_empty() {
    let ranking = vec![2, 0, 1];
    let out: Vec<String> = apply_ranking(vec!["a".into(), "b".into(), "c".into()], &ranking, 0);
    assert!(out.is_empty());
    let out = apply_ranking(vec!["a", "b", "c"], &ranking, 3);
    assert_eq!(out, vec!["c", "a", "b"]);
}

#[test]
fn symbol_runs_rank_at_their_length() {
    assert_eq!(price_sort_key("€"), Some(10_000));
    assert_eq!(price_sort_key("££££"), Some(40_000));
    assert_eq!(price_sort_key("$\u{3000}$\u{85}"), Some(20_000));
    assert_eq!(price_sort_key("$\u{200B}"), Some(20_000));
}

#[test]
fn maps_page_is_ranked_then_cut() {
    let page: Vec<(MapsPlace, &str)> = fixture_results().into_iter().map(|(n, p)| (p, n)).collect();
    let out = order_maps_page(page, Some(MapsSort::Rating), None, 3);
    assert_eq!(out, vec!["Example Coffee", "Fine Dining", "Steakhouse"]);
    let page: Vec<(MapsPlace, &str)> = fixture_results().into_iter().map(|(n, p)| (p, n)).collect();
    let out = order_maps_page(page, None, None, 10);
    assert_eq!(out.len(), 6);
    assert_eq!(out[0], "Example Coffee");
    let page: Vec<(MapsPlace, &str)> = fixture_results().into_iter().map(|(n, p)| (p, n)).collect();
    assert!(order_maps_page(page, Some(MapsSort::Price), Some(MapsOrder::Desc), 0).is_empty());
}
