use folkmoot::paging::{fetch_count, finish_page, list_query};

/// A conversation's history, oldest first; the store answers page queries
/// as the SQL of `list_query` does.
struct Store {
    texts: Vec<String>,
}

impl Store {
    fn with(n: usize) -> Store {
        Store { texts: (0..n).map(|i| format!("m{i}")).collect() }
    }

    fn position(&self, id: &str) -> usize {
        self.texts.iter().position(|t| t == id).unwrap()
    }

    /// Rows of a page query: newest first unless `after` is given.
    fn fetch(&self, limit: u32, before: Option<&str>, after: Option<&str>) -> Vec<String> {
        let n = fetch_count(limit) as usize;
        let mut lo = 0;
        let mut hi = self.texts.len();
        if let Some(b) = before {
            hi = self.position(b);
        }
        if let Some(a) = after {
            lo = self.position(a) + 1;
        }
        let range: Vec<String> = if lo < hi { self.texts[lo..hi].to_vec() } else { vec![] };
        if after.is_some() {
            range.into_iter().take(n).collect()
        } else {
            range.into_iter().rev().take(n).collect()
        }
    }

    fn list(&self, limit: u32, before: Option<&str>, after: Option<&str>) -> (Vec<String>, Option<String>) {
        let rows = self.fetch(limit, before, after);
        let (page, cursor) = finish_page(rows, limit, after.is_some());
        let next = if cursor { page.first().cloned() } else { None };
        (page, next)
    }
}

#[test]
fn default_page_is_latest() {
    let s = Store::with(5);
    let (items, next) = s.list(2, None, None);
    assert_eq!(items, ["m3", "m4"]);
    assert!(next.is_some());
    let (older, next2) = s.list(2, next.as_deref(), None);
    assert_eq!(older, ["m1", "m2"]);
    let (oldest, next3) = s.list(2, next2.as_deref(), None);
    assert_eq!(oldest.len(), 1);
    assert!(next3.is_none());
}

#[test]
fn after_returns_newer_only() {
    let s = Store::with(3);
    let (items, _) = s.list(1, None, None);
    let latest = &items[0];
    let (newer, next) = s.list(50, None, Some(latest));
    assert!(newer.is_empty());
    assert!(next.is_none());
    let (all, _) = s.list(50, None, None);
    let (rest, _) = s.list(50, None, Some(&all[0]));
    assert_eq!(rest.len(), 2);
}

#[test]
fn finish_page_orders_and_trims() {
    let (page, more) = finish_page(vec![5, 4, 3], 2, false);
    assert_eq!(page, vec![4, 5]);
    assert!(more);
    let (page, more) = finish_page(vec![5, 4], 2, false);
    assert_eq!(page, vec![4, 5]);
    assert!(!more);
    let (page, more) = finish_page(vec![1, 2, 3], 2, true);
    assert_eq!(page, vec![1, 2]);
    assert!(!more);
    let (page, more) = finish_page(Vec::<u8>::new(), 0, false);
    assert!(page.is_empty());
    assert!(!more);
}

#[test]
fn pages_tile_the_history() {
    let s = Store::with(7);
    let mut seen: Vec<String> = Vec::new();
    let (mut page, mut next) = s.list(3, None, None);
    loop {
        let mut p = page.clone();
        p.extend(seen);
        seen = p;
        match next {
            Some(c) => {
                let r = s.list(3, Some(&c), None);
                page = r.0;
                next = r.1;
            }
            None => break,
        }
    }
    assert_eq!(seen, s.texts);
}

#[test]
fn page_queries() {
    assert_eq!(
        list_query(false, false),
        "SELECT m.id, m.conversation_id, m.sender_id, a.agent_key, m.text, m.created_at FROM messages m JOIN agents a ON a.id = m.sender_id WHERE m.conversation_id = ?1 ORDER BY m.created_at DESC, m.id DESC LIMIT ?2"
    );
    assert!(list_query(true, false).ends_with(
        " AND (m.created_at < ?2 OR (m.created_at = ?2 AND m.id < ?3)) ORDER BY m.created_at DESC, m.id DESC LIMIT ?4"
    ));
    assert!(list_query(false, true).ends_with(
        " AND (m.created_at > ?2 OR (m.created_at = ?2 AND m.id > ?3)) ORDER BY m.created_at ASC, m.id ASC LIMIT ?4"
    ));
    assert!(list_query(true, true).ends_with(
        " AND (m.created_at > ?4 OR (m.created_at = ?4 AND m.id > ?5)) ORDER BY m.created_at ASC, m.id ASC LIMIT ?6"
    ));
    assert_eq!(fetch_count(50), 51);
}
