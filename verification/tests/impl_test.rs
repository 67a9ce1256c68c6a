//! Tests of the trait on `str` and `String`.

use voca_rs::Voca;

#[test]
fn impl_test() {
    let mut string;
    let mut exp;

    // case::camel_case
    string = "The World - IS Yours";
    exp = "theWorldIsYours";
    assert_eq!(String::from(string)._camel_case(), exp);
    assert_eq!(string._camel_case(), exp);

    // case::capitalize
    string = "The World IS YourS";
    exp = "The world is yours";
    assert_eq!(String::from(string)._capitalize(true), exp);
    assert_eq!(string._capitalize(true), exp);

    // case::decapitalize
    string = "The World IS YourS";
    exp = "the world is yours";
    assert_eq!(String::from(string)._decapitalize(true), exp);
    assert_eq!(string._decapitalize(true), exp);

}
