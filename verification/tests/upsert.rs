use diesel_cockroach::ast::{emit, BindValue};
use diesel_cockroach::query::Table;
use diesel_cockroach::upsert::{upsert_into, InsertValues};

fn book_columns() -> InsertValues {
    InsertValues::new(vec![
        String::from("id"),
        String::from("title"),
        String::from("page_count"),
    ])
}

fn book_row(id: Vec<u8>, title: &str, page_count: i64) -> Vec<BindValue> {
    vec![
        BindValue::Bytes(id),
        BindValue::Text(String::from(title)),
        BindValue::BigInt(page_count),
    ]
}

#[test]
fn empty() {
    let books = book_columns();
    let out = emit(&upsert_into(Table::new(String::from("books"))).values(books));
    assert_eq!(out.sql_str(), r#"UPSERT INTO "books" "#);
    assert_eq!(out.bind_values(), &Vec::new());
}

#[test]
fn single() {
    let mut books = book_columns();
    books.push_row(book_row([0; 1].to_vec(), "Guards! Guards!", 42));
    let out = emit(&upsert_into(Table::new(String::from("books"))).values(books));
    assert_eq!(
        out.sql_str(),
        r#"UPSERT INTO "books" ("id", "title", "page_count") VALUES ($1, $2, $3)"#
    );
    assert_eq!(
        out.bind_values(),
        &vec![
            BindValue::Bytes(vec![0]),
            BindValue::Text(String::from("Guards! Guards!")),
            BindValue::BigInt(42)
        ]
    );
}

#[test]
fn many() {
    let mut books = book_columns();
    books.push_row(book_row([0; 1].to_vec(), "Guards! Guards!", 42));
    books.push_row(book_row([1; 8].to_vec(), "Shift", i64::MAX));
    let out = emit(&upsert_into(Table::new(String::from("books"))).values(books));
    assert_eq!(
        out.sql_str(),
        r#"UPSERT INTO "books" ("id", "title", "page_count") VALUES ($1, $2, $3), ($4, $5, $6)"#
    );
    assert_eq!(
        out.bind_values(),
        &vec![
            BindValue::Bytes(vec![0]),
            BindValue::Text(String::from("Guards! Guards!")),
            BindValue::BigInt(42),
            BindValue::Bytes(vec![1, 1, 1, 1, 1, 1, 1, 1]),
            BindValue::Text(String::from("Shift")),
            BindValue::BigInt(i64::MAX)
        ]
    );
}

#[test]
fn upsert_is_never_safe_to_cache() {
    let empty = emit(&upsert_into(Table::new(String::from("books"))).values(book_columns()));
    assert!(!empty.is_safe_to_cache());
    let mut books = book_columns();
    books.push_row(book_row(vec![7], "Jingo", 1));
    let filled = emit(&upsert_into(Table::new(String::from("books"))).values(books));
    assert!(!filled.is_safe_to_cache());
}

#[test]
fn placeholders_keep_counting_past_nine() {
    let mut books = book_columns();
    books.push_row(book_row(vec![1], "Mort", 1));
    books.push_row(book_row(vec![2], "Sourcery", 2));
    books.push_row(book_row(vec![3], "Eric", 3));
    books.push_row(book_row(vec![4], "Hogfather", 4));
    let out = emit(&upsert_into(Table::new(String::from("books"))).values(books));
    assert_eq!(
        out.sql_str(),
        r#"UPSERT INTO "books" ("id", "title", "page_count") VALUES ($1, $2, $3), ($4, $5, $6), ($7, $8, $9), ($10, $11, $12)"#
    );
    assert_eq!(out.bind_values().len(), 12);
}

#[test]
fn tuple_count_and_arity_follow_the_records() {
    let mut books = book_columns();
    books.push_row(book_row(vec![1], "Pyramids", 1));
    books.push_row(book_row(vec![2], "Maskerade", 2));
    let out = emit(&upsert_into(Table::new(String::from("books"))).values(books));
    let tuples = out.sql_str().matches('(').count() - 1;
    assert_eq!(tuples, 2);
    let markers = out.sql_str().chars().filter(|c| *c == '$').count();
    assert_eq!(markers, 2 * 3);
    assert_eq!(out.bind_values().len(), 2 * 3);
}
