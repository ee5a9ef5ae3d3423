use quote_store::models::{Quote, StoreError, UpdateQuoteRequest};
use quote_store::repository::QuoteRepository;

fn quote(id: &str, text: &str, author: &str, created_at: i64) -> Quote {
    Quote {
        id: id.to_string(),
        text: text.to_string(),
        author: author.to_string(),
        likes_count: 0,
        created_at,
        updated_at: created_at,
    }
}

#[test]
fn create_then_get_by_id_returns_created_quote() {
    let mut repo = QuoteRepository::new();
    let q = quote("q1", "Know thyself", "Socrates", 1000);
    assert!(repo.create(&q).is_ok());
    let got = repo.get_by_id("q1").unwrap();
    assert_eq!(got.id, "q1");
    assert_eq!(got.text, "Know thyself");
    assert_eq!(got.author, "Socrates");
    assert_eq!(got.likes_count, 0);
    assert_eq!(got.created_at, 1000);
    assert_eq!(got.updated_at, 1000);
}

#[test]
fn create_duplicate_identifier_is_refused() {
    let mut repo = QuoteRepository::new();
    assert!(repo.create(&quote("q1", "a", "b", 1)).is_ok());
    let r = repo.create(&quote("q1", "c", "d", 2));
    assert_eq!(r.unwrap_err(), StoreError::Unavailable);
}

#[test]
fn likes_count_matches_like_rows() {
    let mut repo = QuoteRepository::new();
    repo.create(&quote("q1", "a", "b", 1)).unwrap();
    repo.create(&quote("q2", "c", "d", 2)).unwrap();
    repo.like("q1", "1.1.1.1", None, "l1".to_string(), 10).unwrap();
    repo.like("q1", "2.2.2.2", None, "l2".to_string(), 11).unwrap();
    repo.like("q2", "1.1.1.1", None, "l3".to_string(), 12).unwrap();
    assert_eq!(repo.get_by_id("q1").unwrap().likes_count, 2);
    assert_eq!(repo.get_by_id("q2").unwrap().likes_count, 1);
}

#[test]
fn like_twice_yields_one_success_and_one_already_liked() {
    let mut repo = QuoteRepository::new();
    repo.create(&quote("q1", "a", "b", 1)).unwrap();
    let first = repo.like("q1", "9.9.9.9", None, "l1".to_string(), 10);
    let second = repo.like("q1", "9.9.9.9", None, "l2".to_string(), 11);
    assert!(first.is_ok());
    assert_eq!(second.unwrap_err(), StoreError::AlreadyLiked);
    assert_eq!(repo.get_by_id("q1").unwrap().likes_count, 1);
}

#[test]
fn like_refreshes_updated_at_and_keeps_created_at() {
    let mut repo = QuoteRepository::new();
    repo.create(&quote("q1", "a", "b", 1)).unwrap();
    repo.like("q1", "9.9.9.9", Some("agent".to_string()), "l1".to_string(), 77).unwrap();
    let got = repo.get_by_id("q1").unwrap();
    assert_eq!(got.created_at, 1);
    assert_eq!(got.updated_at, 77);
}

#[test]
fn is_liked_reflects_like_rows() {
    let mut repo = QuoteRepository::new();
    repo.create(&quote("q1", "a", "b", 1)).unwrap();
    assert!(!repo.is_liked("q1", "1.1.1.1"));
    repo.like("q1", "1.1.1.1", None, "l1".to_string(), 10).unwrap();
    assert!(repo.is_liked("q1", "1.1.1.1"));
    assert!(!repo.is_liked("q1", "2.2.2.2"));
}

#[test]
fn reset_likes_zeroes_every_counter_and_every_pair() {
    let mut repo = QuoteRepository::new();
    repo.create(&quote("q1", "a", "b", 1)).unwrap();
    repo.create(&quote("q2", "c", "d", 2)).unwrap();
    repo.like("q1", "1.1.1.1", None, "l1".to_string(), 10).unwrap();
    repo.like("q2", "2.2.2.2", None, "l2".to_string(), 11).unwrap();
    repo.reset_likes(99).unwrap();
    let (all, total) = repo.get_all(1, 100, None);
    assert_eq!(total, 2);
    for q in &all {
        assert_eq!(q.likes_count, 0);
        assert_eq!(q.updated_at, 99);
    }
    assert_eq!(repo.get_by_id("q1").unwrap().likes_count, 0);
    assert!(!repo.is_liked("q1", "1.1.1.1"));
    assert!(!repo.is_liked("q2", "2.2.2.2"));
}

#[test]
fn pagination_of_25_quotes_with_page_size_10() {
    let mut repo = QuoteRepository::new();
    for i in 0..25i64 {
        repo.create(&quote(&format!("q{}", i), "text", "author", i)).unwrap();
    }
    let (page1, total1) = repo.get_all(1, 10, None);
    assert_eq!(page1.len(), 10);
    assert_eq!(total1, 25);
    assert_eq!(quote_store::models::calculate_total_pages(total1, 10), 3);
    let (page3, total3) = repo.get_all(3, 10, None);
    assert_eq!(page3.len(), 5);
    assert_eq!(total3, 25);
    let (page4, _) = repo.get_all(4, 10, None);
    assert_eq!(page4.len(), 0);
}

#[test]
fn listing_is_ordered_newest_first() {
    let mut repo = QuoteRepository::new();
    repo.create(&quote("old", "a", "b", 100)).unwrap();
    repo.create(&quote("new", "c", "d", 300)).unwrap();
    repo.create(&quote("mid", "e", "f", 200)).unwrap();
    let (all, _) = repo.get_all(1, 10, None);
    let ids: Vec<&str> = all.iter().map(|q| q.id.as_str()).collect();
    assert_eq!(ids, vec!["new", "mid", "old"]);
}

#[test]
fn search_is_case_insensitive_on_text_and_author() {
    let mut repo = QuoteRepository::new();
    repo.create(&quote("q1", "The obstacle is the way", "Marcus Aurelius", 1)).unwrap();
    repo.create(&quote("q2", "I know that I know nothing", "Socrates", 2)).unwrap();
    let (by_author, total_author) = repo.get_all(1, 10, Some("aurelius"));
    assert_eq!(total_author, 1);
    assert_eq!(by_author[0].id, "q1");
    let (by_text, total_text) = repo.get_all(1, 10, Some("OBSTACLE"));
    assert_eq!(total_text, 1);
    assert_eq!(by_text[0].id, "q1");
    let (none, total_none) = repo.get_all(1, 10, Some("seneca"));
    assert_eq!(total_none, 0);
    assert!(none.is_empty());
}

#[test]
fn top_weekly_excludes_old_quotes_top_all_time_includes_them() {
    let mut repo = QuoteRepository::new();
    let now: i64 = 20_000_000_000;
    let ten_days: i64 = 10 * 86_400_000;
    let one_day: i64 = 86_400_000;
    repo.create(&quote("old", "a", "b", now - ten_days)).unwrap();
    repo.create(&quote("fresh", "c", "d", now - one_day)).unwrap();
    repo.like("old", "1.1.1.1", None, "l1".to_string(), now).unwrap();
    repo.like("old", "2.2.2.2", None, "l2".to_string(), now).unwrap();
    repo.like("fresh", "1.1.1.1", None, "l3".to_string(), now).unwrap();
    assert_eq!(repo.get_top_weekly(now).unwrap().id, "fresh");
    assert_eq!(repo.get_top_all_time().unwrap().id, "old");
}

#[test]
fn top_weekly_is_not_found_when_window_is_empty() {
    let mut repo = QuoteRepository::new();
    let now: i64 = 20_000_000_000;
    let ten_days: i64 = 10 * 86_400_000;
    repo.create(&quote("old", "a", "b", now - ten_days)).unwrap();
    assert_eq!(repo.get_top_weekly(now).unwrap_err(), StoreError::NotFound);
}

#[test]
fn top_ties_break_by_most_recent_creation() {
    let mut repo = QuoteRepository::new();
    repo.create(&quote("older", "a", "b", 100)).unwrap();
    repo.create(&quote("newer", "c", "d", 200)).unwrap();
    repo.like("older", "1.1.1.1", None, "l1".to_string(), 300).unwrap();
    repo.like("newer", "1.1.1.1", None, "l2".to_string(), 300).unwrap();
    assert_eq!(repo.get_top_all_time().unwrap().id, "newer");
}

#[test]
fn missing_identifier_errors_are_not_found() {
    let mut repo = QuoteRepository::new();
    repo.create(&quote("q1", "a", "b", 1)).unwrap();
    assert_eq!(repo.delete("missing").unwrap_err(), StoreError::NotFound);
    let patch = UpdateQuoteRequest { text: Some("x".to_string()), author: None };
    assert_eq!(repo.update("missing", &patch, 9).unwrap_err(), StoreError::NotFound);
    assert_eq!(
        repo.like("missing", "1.1.1.1", None, "l1".to_string(), 9).unwrap_err(),
        StoreError::NotFound
    );
    assert_eq!(repo.get_by_id("missing").unwrap_err(), StoreError::NotFound);
}

#[test]
fn update_applies_each_field_independently() {
    let mut repo = QuoteRepository::new();
    repo.create(&quote("q1", "old text", "old author", 1)).unwrap();
    let patch = UpdateQuoteRequest { text: Some("new text".to_string()), author: None };
    repo.update("q1", &patch, 50).unwrap();
    let got = repo.get_by_id("q1").unwrap();
    assert_eq!(got.text, "new text");
    assert_eq!(got.author, "old author");
    assert_eq!(got.updated_at, 50);
    assert_eq!(got.created_at, 1);
    let patch2 = UpdateQuoteRequest { text: None, author: Some("new author".to_string()) };
    repo.update("q1", &patch2, 60).unwrap();
    let got2 = repo.get_by_id("q1").unwrap();
    assert_eq!(got2.text, "new text");
    assert_eq!(got2.author, "new author");
    assert_eq!(got2.updated_at, 60);
}

#[test]
fn update_never_touches_the_counter() {
    let mut repo = QuoteRepository::new();
    repo.create(&quote("q1", "a", "b", 1)).unwrap();
    repo.like("q1", "1.1.1.1", None, "l1".to_string(), 10).unwrap();
    let patch = UpdateQuoteRequest { text: Some("x".to_string()), author: Some("y".to_string()) };
    repo.update("q1", &patch, 20).unwrap();
    assert_eq!(repo.get_by_id("q1").unwrap().likes_count, 1);
}

#[test]
fn delete_removes_the_quote_and_its_like_rows() {
    let mut repo = QuoteRepository::new();
    repo.create(&quote("q1", "a", "b", 1)).unwrap();
    repo.like("q1", "1.1.1.1", None, "l1".to_string(), 10).unwrap();
    repo.delete("q1").unwrap();
    assert_eq!(repo.get_by_id("q1").unwrap_err(), StoreError::NotFound);
    assert!(!repo.is_liked("q1", "1.1.1.1"));
    let (_, total) = repo.get_all(1, 10, None);
    assert_eq!(total, 0);
}

#[test]
fn get_random_picks_by_the_draw_and_fails_on_empty() {
    let mut repo = QuoteRepository::new();
    assert_eq!(repo.get_random(7).unwrap_err(), StoreError::NotFound);
    repo.create(&quote("q1", "a", "b", 1)).unwrap();
    repo.create(&quote("q2", "c", "d", 2)).unwrap();
    let picked = repo.get_random(0).unwrap();
    assert!(picked.id == "q1" || picked.id == "q2");
    assert_eq!(repo.get_random(0).unwrap().id, repo.get_random(2).unwrap().id);
}
