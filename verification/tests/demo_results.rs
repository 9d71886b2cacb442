use everything_next::demo_results::{mock_page, DEMO_TOTAL};
use everything_next::model::{QueryRequest, SortSpec};

fn request(query: &str, offset: u32, limit: u32) -> QueryRequest {
    QueryRequest { query: query.to_string(), offset, limit, sort: SortSpec::default(), request_id: 3 }
}

#[test]
fn a_blank_query_has_no_made_up_results() {
    let page = mock_page(request("   ", 0, 50));
    assert_eq!(page.total, 0);
    assert!(page.items.is_empty());
    assert_eq!(page.request_id, 3);
}

#[test]
fn made_up_results_follow_the_query() {
    let page = mock_page(request("rapport annuel", 0, 12));
    assert_eq!(page.total, DEMO_TOTAL);
    assert_eq!(page.items.len(), 12);
    let folder = &page.items[0];
    assert!(folder.is_dir);
    assert_eq!(folder.id, "mock-0");
    assert_eq!(folder.name, "Projet 0000");
    assert_eq!(folder.full_path, r"C:\Users\Public\Documents\Projet 0000");
    assert_eq!(folder.parent_path, r"C:\Users\Public\Documents");
    assert_eq!(folder.size, None);
    assert_eq!(folder.modified_unix, Some(1_720_000_000));
    let file = &page.items[1];
    assert!(!file.is_dir);
    assert_eq!(file.name, "rapport-annuel-resultat-00001.pdf");
    assert_eq!(file.full_path, r"C:\Users\Public\Documents\Everything Modern\rapport-annuel-resultat-00001.pdf");
    assert_eq!(file.parent_path, r"C:\Users\Public\Documents\Everything Modern");
    assert_eq!(file.size, Some(97_426));
    assert_eq!(file.modified_unix, Some(1_720_000_733));
    assert_eq!(page.items[11].name, "Projet 0011");
}

#[test]
fn the_last_made_up_page_stops_at_the_total() {
    let page = mock_page(request("x", DEMO_TOTAL - 2, 10));
    assert_eq!(page.items.len(), 2);
    assert_eq!(page.items[1].name, "x-resultat-12479.txt");
    assert!(mock_page(request("x", DEMO_TOTAL + 5, 10)).items.is_empty());
}
