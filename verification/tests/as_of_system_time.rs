use diesel_cockroach::as_of_system_time::{
    follower_read_timestamp, with_max_staleness, with_max_staleness_nearest_only,
    with_min_timestamp, with_min_timestamp_nearest_only, AsOfSystemTimeDsl,
};
use diesel_cockroach::ast::{emit, BindValue, IntervalValue};
use diesel_cockroach::query::{Select, Table};

fn books_select_id() -> Select {
    Select::new(Table::new(String::from("books")), vec![String::from("id")])
}

#[test]
fn select_books_as_of_system_time_follower_read_timestamp() {
    let out = emit(&books_select_id().as_of_system_time(follower_read_timestamp()));
    assert_eq!(
        out.sql_str(),
        r#"SELECT "books"."id" FROM "books" AS OF SYSTEM TIME follower_read_timestamp()"#
    );
    assert_eq!(out.bind_values(), &Vec::new());
}

#[test]
fn select_books_as_of_system_time_with_min_timestamp() {
    let out = emit(&books_select_id().as_of_system_time(with_min_timestamp(0)));
    assert_eq!(
        out.sql_str(),
        r#"SELECT "books"."id" FROM "books" AS OF SYSTEM TIME with_min_timestamp($1)"#
    );
    assert_eq!(out.bind_values(), &vec![BindValue::Timestamp(0)]);
}

#[test]
fn select_books_as_of_system_time_with_min_timestamp_nearest_only() {
    let out = emit(&books_select_id().as_of_system_time(with_min_timestamp_nearest_only(0, true)));
    assert_eq!(
        out.sql_str(),
        r#"SELECT "books"."id" FROM "books" AS OF SYSTEM TIME with_min_timestamp($1, $2)"#
    );
    assert_eq!(
        out.bind_values(),
        &vec![BindValue::Timestamp(0), BindValue::Bool(true)]
    );
}

#[test]
fn select_books_as_of_system_time_with_max_staleness() {
    let out = emit(
        &books_select_id().as_of_system_time(with_max_staleness(
            IntervalValue::from_microseconds(0),
        )),
    );
    assert_eq!(
        out.sql_str(),
        r#"SELECT "books"."id" FROM "books" AS OF SYSTEM TIME with_max_staleness($1)"#
    );
    assert_eq!(
        out.bind_values(),
        &vec![BindValue::Interval(IntervalValue::from_microseconds(0))]
    );
}

#[test]
fn select_books_as_of_system_time_with_max_staleness_nearest_only() {
    let out = emit(&books_select_id().as_of_system_time(with_max_staleness_nearest_only(
        IntervalValue::from_microseconds(0),
        true,
    )));
    assert_eq!(
        out.sql_str(),
        r#"SELECT "books"."id" FROM "books" AS OF SYSTEM TIME with_max_staleness($1, $2)"#
    );
    assert_eq!(
        out.bind_values(),
        &vec![
            BindValue::Interval(IntervalValue::from_microseconds(0)),
            BindValue::Bool(true)
        ]
    );
}

#[test]
fn time_travel_wrapper_is_safe_to_cache() {
    let out = emit(&books_select_id().as_of_system_time(follower_read_timestamp()));
    assert!(out.is_safe_to_cache());
}

#[test]
fn select_of_several_columns_lists_them_in_order() {
    let query = Select::new(
        Table::new(String::from("books")),
        vec![String::from("id"), String::from("title")],
    );
    let out = emit(&query.as_of_system_time(follower_read_timestamp()));
    assert_eq!(
        out.sql_str(),
        r#"SELECT "books"."id", "books"."title" FROM "books" AS OF SYSTEM TIME follower_read_timestamp()"#
    );
    assert_eq!(out.bind_values(), &Vec::new());
}

#[test]
fn wrapper_leaves_the_inner_select_text_unchanged() {
    let plain = emit(&books_select_id());
    let wrapped = emit(&books_select_id().as_of_system_time(follower_read_timestamp()));
    assert!(wrapped.sql_str().starts_with(plain.sql_str()));
    assert_eq!(
        wrapped.sql_str(),
        format!(
            "{} AS OF SYSTEM TIME follower_read_timestamp()",
            plain.sql_str()
        )
    );
}

#[test]
fn placeholder_markers_match_bind_count() {
    let out = emit(&books_select_id().as_of_system_time(with_max_staleness_nearest_only(
        IntervalValue::from_microseconds(5),
        false,
    )));
    let markers = out.sql_str().chars().filter(|c| *c == '$').count();
    assert_eq!(markers, out.bind_values().len());
    assert_eq!(markers, 2);
}
