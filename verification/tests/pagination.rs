use sausagewiki::assets::{ScriptJs, SearchJs, StyleCss, ThemesCss};
use sausagewiki::models::slug_link;
use sausagewiki::pagination::{
    from_fields, page_limit, take_extra, Error, LimitError, Pagination, PaginationStruct,
    DEFAULT_LIMIT, MAX_LIMIT,
};

#[test]
fn one_bound_or_none_is_a_pagination() {
    assert_eq!(Ok(Pagination::After(3)), from_fields(Some(3), None));
    assert_eq!(Ok(Pagination::Before(7)), from_fields(None, Some(7)));
    assert_eq!(Ok(Pagination::Unbounded), from_fields::<i32>(None, None));
}

#[test]
fn both_bounds_are_an_error() {
    assert_eq!(Err(Error), from_fields(Some(3), Some(7)));
    assert_eq!(
        Err(Error),
        PaginationStruct { after: Some(1), before: Some(1) }.into_enum()
    );
    assert_eq!("`after` and `before` are mutually exclusive", Error.to_string());
}

#[test]
fn into_enum_agrees_with_from_fields() {
    assert_eq!(
        Ok(Pagination::After("x")),
        PaginationStruct { after: Some("x"), before: None }.into_enum()
    );
    assert_eq!(
        Ok(Pagination::Before("y")),
        PaginationStruct { after: None, before: Some("y") }.into_enum()
    );
}

#[test]
fn asset_names() {
    assert_eq!("themes.css", ThemesCss::resource_name());
    assert_eq!("style.css", StyleCss::resource_name());
    assert_eq!("script.js", ScriptJs::resource_name());
    assert_eq!("search.js", SearchJs::resource_name());
}

#[test]
fn front_page_links_to_dot() {
    assert_eq!(".", slug_link(""));
    assert_eq!("some-page", slug_link("some-page"));
}

#[test]
fn page_limits_lie_between_one_and_a_hundred() {
    assert_eq!(Ok(30), page_limit(None));
    assert_eq!(DEFAULT_LIMIT, 30);
    assert_eq!(MAX_LIMIT, 100);
    assert_eq!(Ok(1), page_limit(Some(1)));
    assert_eq!(Ok(100), page_limit(Some(100)));
    assert_eq!(Err(LimitError), page_limit(Some(0)));
    assert_eq!(Err(LimitError), page_limit(Some(101)));
    assert_eq!(Err(LimitError), page_limit(Some(-5)));
    assert_eq!("`limit` argument must be in range [1, 100]", LimitError.to_string());
}

#[test]
fn the_row_beyond_the_page_is_taken_off() {
    let mut data = vec![1, 2, 3];
    assert_eq!(Some(3), take_extra(&mut data, 2));
    assert_eq!(vec![1, 2], data);
    assert_eq!(None, take_extra(&mut data, 2));
    assert_eq!(vec![1, 2], data);
    let mut none: Vec<i32> = vec![];
    assert_eq!(None, take_extra(&mut none, 0));
}
