use std::collections::HashMap;

use studysphere::helpers::{
    DateUtils, ErrorUtils, PaginationParams, QueryUtils, SortDirection, StringUtils, UuidUtils,
};

#[test]
fn test_pagination_params() {
    let params = PaginationParams::new(Some(2), Some(15));
    assert_eq!(params.page, 2);
    assert_eq!(params.page_size, 15);
    assert_eq!(params.offset, 15);

    // Test defaults
    let default_params = PaginationParams::new(None, None);
    assert_eq!(default_params.page, 1);
    assert_eq!(default_params.page_size, 20);
    assert_eq!(default_params.offset, 0);

    // Test clamping
    let clamped = PaginationParams::new(Some(0), Some(500));
    assert_eq!(clamped.page, 1);
    assert_eq!(clamped.page_size, 100);
}

#[test]
fn test_total_pages_calculation() {
    assert_eq!(PaginationParams::calculate_total_pages(0, 20), 0);
    assert_eq!(PaginationParams::calculate_total_pages(19, 20), 1);
    assert_eq!(PaginationParams::calculate_total_pages(20, 20), 1);
    assert_eq!(PaginationParams::calculate_total_pages(21, 20), 2);
    assert_eq!(PaginationParams::calculate_total_pages(100, 25), 4);
}

#[test]
fn test_query_utils_search_params() {
    let mut filters = HashMap::new();
    filters.insert("category".to_string(), "test".to_string());

    let params = QueryUtils::parse_search_params(Some("  search term  ".to_string()), filters.clone());

    assert_eq!(params.query, Some("search term".to_string()));
    assert_eq!(params.filters, filters);

    // Test empty query
    let empty_params = QueryUtils::parse_search_params(Some("   ".to_string()), HashMap::new());
    assert_eq!(empty_params.query, None);
}

#[test]
fn test_sort_params() {
    let asc_sort = QueryUtils::parse_sort_params(Some("name".to_string()));
    assert_eq!(asc_sort.field, "name");
    assert_eq!(asc_sort.direction, SortDirection::Asc);

    let desc_sort = QueryUtils::parse_sort_params(Some("-created_at".to_string()));
    assert_eq!(desc_sort.field, "created_at");
    assert_eq!(desc_sort.direction, SortDirection::Desc);

    let default_sort = QueryUtils::parse_sort_params(None);
    assert_eq!(default_sort.field, "created_at");
    assert_eq!(default_sort.direction, SortDirection::Asc);
}

#[test]
fn test_sort_direction_sql() {
    assert_eq!(SortDirection::Asc.as_sql(), "ASC");
    assert_eq!(SortDirection::Desc.as_sql(), "DESC");
}

#[test]
fn test_date_utils() {
    let now = DateUtils::now();
    assert!(now <= DateUtils::now());

    let iso_date = "2023-12-25T10:30:00Z";
    let parsed = DateUtils::parse_iso_date(iso_date).unwrap();
    assert_eq!(DateUtils::format_api_date(parsed).unwrap(), "2023-12-25T10:30:00+00:00");

    // Test date range
    let test_date = DateUtils::now();
    let start = test_date - 3600;
    let end = test_date + 3600;

    assert!(DateUtils::is_date_in_range(test_date, Some(start), Some(end)));
    assert!(!DateUtils::is_date_in_range(test_date, Some(end), None));
    assert!(!DateUtils::is_date_in_range(test_date, None, Some(start)));
}

#[test]
fn test_uuid_utils() {
    let uuid = UuidUtils::generate();
    assert!(UuidUtils::is_valid(&uuid.to_string()));

    let parsed = UuidUtils::parse(&uuid.to_string()).unwrap();
    assert_eq!(parsed, uuid);

    assert!(UuidUtils::parse("invalid-uuid").is_err());
    assert!(!UuidUtils::is_valid("invalid-uuid"));
}

#[test]
fn test_error_utils() {
    let validation_errors = vec!["Field is required".to_string(), "Invalid format".to_string()];

    let formatted = ErrorUtils::format_validation_errors(validation_errors.clone());
    assert_eq!(formatted.0, "validation_errors");
    assert_eq!(formatted.1, validation_errors);

    let error_response = ErrorUtils::create_error_response("validation_error", "Invalid input");
    assert_eq!(error_response[0], ("error".to_string(), "validation_error".to_string()));
    assert_eq!(error_response[1], ("message".to_string(), "Invalid input".to_string()));
}

#[test]
fn test_string_utils() {
    assert_eq!(StringUtils::slugify("Hello World!"), "hello-world");
    assert_eq!(StringUtils::slugify("Test@123#Title"), "test-123-title");
    assert_eq!(StringUtils::slugify("Multiple---Dashes"), "multiple-dashes");

    assert_eq!(StringUtils::truncate("Short", 10), "Short");
    assert_eq!(StringUtils::truncate("This is a long string", 10), "This is...");
    assert_eq!(StringUtils::truncate("ABC", 3), "ABC");

    assert_eq!(StringUtils::clean_whitespace("  multiple   spaces  "), "multiple spaces");
    assert_eq!(StringUtils::clean_whitespace("normal text"), "normal text");
    assert_eq!(StringUtils::clean_whitespace(""), "");
}
