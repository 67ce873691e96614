use ffirs_commands::mappers::{
    ExactMapper, FragmentMapper, FromStrMapper, MapperOutput, NoopMapper, UserMapper,
};
use ffirs_commands::type_identity::UserId;

#[test]
fn test_mapper_noop() {
    let mapper = NoopMapper;
    assert!(matches!(mapper.map("garbage"), Some(MapperOutput::Unit)));
}

#[test]
fn test_mapper_from_str_i32() {
    let mapper = FromStrMapper::<i32>::default();

    assert!(matches!(mapper.map("0"), Some(MapperOutput::Int(0))));
    assert!(matches!(mapper.map("12"), Some(MapperOutput::Int(12))));
    assert!(matches!(mapper.map("042"), Some(MapperOutput::Int(42))));
}

#[test]
fn test_mapper_from_str_bool() {
    let mapper = FromStrMapper::<bool>::default();

    assert!(matches!(mapper.map("true"), Some(MapperOutput::Bool(true))));
    assert!(matches!(mapper.map("false"), Some(MapperOutput::Bool(false))));
}

#[test]
fn test_mapper_user_id() {
    let mapper = UserMapper;

    assert!(matches!(mapper.map("<@123456>"), Some(MapperOutput::User(UserId(123456)))));
    assert!(matches!(mapper.map("<@!123456>"), Some(MapperOutput::User(UserId(123456)))));
}

#[test]
fn exact_mapper_returns_text() {
    match ExactMapper.map("hello") {
        Some(MapperOutput::Text(t)) => assert_eq!(t, "hello"),
        other => panic!("unexpected {:?}", other),
    }
}

#[test]
fn from_str_mapper_integer_ranges() {
    let m32 = FromStrMapper::<i32>::default();
    assert!(matches!(m32.map("-2147483648"), Some(MapperOutput::Int(i32::MIN))));
    assert!(matches!(m32.map("2147483647"), Some(MapperOutput::Int(i32::MAX))));
    assert!(m32.map("2147483648").is_none());
    assert!(m32.map("-").is_none());
    assert!(m32.map("").is_none());
    assert!(matches!(m32.map("+7"), Some(MapperOutput::Int(7))));
    let m64 = FromStrMapper::<i64>::default();
    assert!(matches!(m64.map("-9223372036854775808"), Some(MapperOutput::Signed(i64::MIN))));
    assert!(m64.map("9223372036854775808").is_none());
    let mu = FromStrMapper::<u64>::default();
    assert!(matches!(mu.map("18446744073709551615"), Some(MapperOutput::Unsigned(u64::MAX))));
    assert!(mu.map("18446744073709551616").is_none());
    assert!(mu.map("-1").is_none());
    assert!(mu.map("12a").is_none());
}

#[test]
fn from_str_mapper_bool_rejects_other_text() {
    let mapper = FromStrMapper::<bool>::default();
    assert!(mapper.map("True").is_none());
    assert!(mapper.map("").is_none());
}

#[test]
fn user_mapper_rejects_non_mentions() {
    assert!(UserMapper.map("123").is_none());
    assert!(UserMapper.map("<@12a>").is_none());
    assert!(UserMapper.map("<@99999999999999999999>").is_none());
}
