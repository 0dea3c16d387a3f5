use rscache::database::{DatabaseError, MemoryDatabase, Value, ValueConvert};

#[test]
fn test_memory_database_add() {
    let mut db = MemoryDatabase::new();

    db.set(String::from("test"), Value::String(String::from("test")))
        .unwrap();

    assert_eq!(db.size(), 8);
}

#[test]
fn test_get_cache_item() {
    let mut db = MemoryDatabase::new();

    db.set(String::from("test"), Value::String(String::from("test")))
        .unwrap();

    let value: &String = db.get("test").unwrap().to().unwrap();

    assert_eq!(value, "test");
}

#[test]
fn test_get_float_cache_item() {
    let mut db = MemoryDatabase::new();

    db.set(String::from("pi"), Value::Float(3.14f64.to_bits()))
        .unwrap();

    let bits: u64 = *db.get("pi").unwrap().to().unwrap();
    let value: f64 = f64::from_bits(bits);

    assert_eq!(value, 3.14);
}

#[test]
fn test_get_boolean_cache_item() {
    let mut db = MemoryDatabase::new();

    db.set(String::from("is_active"), Value::Boolean(true))
        .unwrap();

    let value: bool = *db.get("is_active").unwrap().to().unwrap();

    assert_eq!(value, true);
}

#[test]
fn test_memory_db_max_size_exceeded() {
    let mut db = MemoryDatabase::with_max_size(1);

    let result = db
        .set(String::from("test"), Value::String(String::from("test")))
        .unwrap_err();

    assert_eq!(result, DatabaseError::MaxSizeExceeded);
}

#[test]
fn new_store_is_empty() {
    let db = MemoryDatabase::new();
    assert_eq!(db.size(), 0);
    assert!(db.get("anything").is_none());
    assert!(db.get("").is_none());
}

#[test]
fn default_limit_is_one_mebi() {
    let mut db = MemoryDatabase::new();
    let key = String::from("k");
    // 1 + 1_048_575 = 1_048_576: exactly the limit.
    let fits = "x".repeat(1_048_575);
    assert_eq!(db.set(key.clone(), Value::String(fits)), Ok(()));
    assert_eq!(db.size(), 1_048_576);
    let too_long = "x".repeat(1_048_576);
    assert_eq!(
        db.set(key, Value::String(too_long)),
        Err(DatabaseError::MaxSizeExceeded)
    );
    assert_eq!(db.size(), 1_048_576);
}

#[test]
fn every_kind_has_its_size() {
    let mut db = MemoryDatabase::new();

    db.set(String::from("test"), Value::String(String::from("test")))
        .unwrap();
    assert_eq!(db.size(), 8);
    db.set(String::from("pi"), Value::Float(3.14f64.to_bits()))
        .unwrap();
    assert_eq!(db.size(), 18);
    db.set(String::from("is_active"), Value::Boolean(true))
        .unwrap();
    assert_eq!(db.size(), 28);
    db.set(String::from("age"), Value::Integer(25)).unwrap();

    assert_eq!(db.size(), 35);
}

#[test]
fn size_counts_characters_not_bytes() {
    let mut db = MemoryDatabase::new();
    // Two characters of key, three of payload, whatever their encoding.
    db.set(String::from("ключ".chars().take(2).collect::<String>()), Value::String(String::from("äöü")))
        .unwrap();
    assert_eq!(db.size(), 5);
}

#[test]
fn empty_key_and_empty_string_cost_nothing() {
    let mut db = MemoryDatabase::with_max_size(0);
    assert_eq!(db.set(String::new(), Value::String(String::new())), Ok(()));
    assert_eq!(db.size(), 0);
    let held: &String = db.get("").unwrap().to().unwrap();
    assert_eq!(held, "");
}

#[test]
fn set_then_get_returns_what_was_written() {
    let mut db = MemoryDatabase::with_max_size(7);
    // 3 + 4 = 7 fits exactly.
    assert_eq!(db.set(String::from("age"), Value::Integer(-25)), Ok(()));
    assert_eq!(db.get("age"), Some(&Value::Integer(-25)));
    assert_eq!(db.size(), 7);
}

#[test]
fn set_refused_at_one_over_the_limit() {
    let mut db = MemoryDatabase::with_max_size(6);
    assert_eq!(
        db.set(String::from("age"), Value::Integer(25)),
        Err(DatabaseError::MaxSizeExceeded)
    );
    assert_eq!(db.size(), 0);
    assert!(db.get("age").is_none());
}

#[test]
fn refused_set_changes_nothing() {
    let mut db = MemoryDatabase::with_max_size(10);
    db.set(String::from("a"), Value::String(String::from("12345678")))
        .unwrap();
    assert_eq!(db.size(), 9);

    // 2 fits an empty store of this limit, but not this one.
    assert_eq!(
        db.set(String::from("b"), Value::Boolean(true)),
        Err(DatabaseError::MaxSizeExceeded)
    );
    assert_eq!(db.size(), 9);
    assert!(db.get("b").is_none());
    assert_eq!(
        db.get("a"),
        Some(&Value::String(String::from("12345678")))
    );

    // A refused overwrite keeps the old value.
    assert_eq!(
        db.set(String::from("a"), Value::String(String::from("1234567890"))),
        Err(DatabaseError::MaxSizeExceeded)
    );
    assert_eq!(db.size(), 9);
    assert_eq!(
        db.get("a"),
        Some(&Value::String(String::from("12345678")))
    );
}

#[test]
fn overwrite_is_accounted_once() {
    let mut db = MemoryDatabase::new();
    db.set(String::from("k"), Value::String(String::from("long value")))
        .unwrap();
    assert_eq!(db.size(), 11);
    db.set(String::from("k"), Value::Boolean(false)).unwrap();
    assert_eq!(db.size(), 2);
    assert_eq!(db.get("k"), Some(&Value::Boolean(false)));
    db.set(String::from("k"), Value::Float(0)).unwrap();
    assert_eq!(db.size(), 9);
}

#[test]
fn overwrite_needs_room_beside_what_it_replaces() {
    let mut db = MemoryDatabase::with_max_size(9);
    db.set(String::from("k"), Value::Float(1)).unwrap();
    assert_eq!(db.size(), 9);
    // The new entry would fit once the old one is gone, but the total as it
    // stands leaves no room for it.
    assert_eq!(
        db.set(String::from("k"), Value::Boolean(true)),
        Err(DatabaseError::MaxSizeExceeded)
    );
    assert_eq!(db.size(), 9);
    assert_eq!(db.get("k"), Some(&Value::Float(1)));
    assert_eq!(
        db.set(String::from("k"), Value::String(String::from("12345678"))),
        Err(DatabaseError::MaxSizeExceeded)
    );
    assert_eq!(db.size(), 9);
    assert_eq!(db.get("k"), Some(&Value::Float(1)));
}

#[test]
fn overwrite_with_room_gives_the_old_size_back() {
    let mut db = MemoryDatabase::with_max_size(11);
    db.set(String::from("k"), Value::Float(1)).unwrap();
    assert_eq!(db.size(), 9);
    // 9 + 2 = 11 fits exactly; afterwards only the new entry counts.
    assert_eq!(db.set(String::from("k"), Value::Boolean(true)), Ok(()));
    assert_eq!(db.size(), 2);
    assert_eq!(db.get("k"), Some(&Value::Boolean(true)));
    // 2 + 10 = 12 is one too many.
    assert_eq!(
        db.set(String::from("k"), Value::String(String::from("123456789"))),
        Err(DatabaseError::MaxSizeExceeded)
    );
    assert_eq!(db.size(), 2);
    assert_eq!(db.get("k"), Some(&Value::Boolean(true)));
}

#[test]
fn remove_gives_the_size_back() {
    let mut db = MemoryDatabase::new();

    db.set(String::from("test"), Value::String(String::from("test")))
        .unwrap();
    db.set(String::from("age"), Value::Integer(25)).unwrap();
    assert_eq!(db.size(), 15);

    assert_eq!(db.remove("test"), Ok(()));
    assert_eq!(db.size(), 7);
    assert!(db.get("test").is_none());
    assert_eq!(db.get("age"), Some(&Value::Integer(25)));

    assert_eq!(db.remove("age"), Ok(()));
    assert_eq!(db.size(), 0);
}

#[test]
fn remove_of_absent_key_fails_and_keeps_size() {
    let mut db = MemoryDatabase::new();
    assert_eq!(db.remove("test"), Err(DatabaseError::KeyDoesNotExist));
    assert_eq!(db.size(), 0);

    db.set(String::from("test"), Value::String(String::from("test")))
        .unwrap();
    assert_eq!(db.remove("tes"), Err(DatabaseError::KeyDoesNotExist));
    assert_eq!(db.size(), 8);
    assert_eq!(db.remove("test"), Ok(()));
    assert_eq!(db.remove("test"), Err(DatabaseError::KeyDoesNotExist));
    assert_eq!(db.size(), 0);
}

#[test]
fn size_is_the_sum_after_every_step() {
    let mut db = MemoryDatabase::with_max_size(40);
    let mut expected: i32 = 0;
    let mut live: Vec<(String, i32)> = Vec::new();
    // A fixed walk through sets, overwrites and removals.
    let steps: Vec<(&str, Option<Value>)> = vec![
        ("a", Some(Value::Integer(1))),
        ("bb", Some(Value::Boolean(true))),
        ("a", Some(Value::String(String::from("hello")))),
        ("ccc", Some(Value::Float(7))),
        ("bb", None),
        ("zz", None),
        ("dddd", Some(Value::String(String::from("0123456789012345678901234567890")))),
        ("a", None),
        ("dddd", Some(Value::String(String::from("0123456789012345678901234567890")))),
        ("ccc", Some(Value::Integer(0))),
        // 7 + 37 is over the limit, though 37 alone is not.
        ("ccc", Some(Value::String(String::from("0123456789012345678901234567890123")))),
        ("e", Some(Value::String(String::from("01234567890123456789012345678901")))),
        ("e", Some(Value::Boolean(true))),
    ];
    for (key, step) in steps {
        match step {
            Some(value) => {
                let cost = key.chars().count() as i32
                    + match &value {
                        Value::Integer(_) => 4,
                        Value::String(s) => s.chars().count() as i32,
                        Value::Float(_) => 8,
                        Value::Boolean(_) => 1,
                    };
                let held = live.iter().position(|(k, _)| k == key);
                let freed = held.map(|i| live[i].1).unwrap_or(0);
                let fits = expected + cost <= 40;
                let result = db.set(String::from(key), value);
                assert_eq!(result.is_ok(), fits);
                if fits {
                    if let Some(i) = held {
                        live.remove(i);
                    }
                    live.push((String::from(key), cost));
                    expected = expected - freed + cost;
                }
            }
            None => {
                let held = live.iter().position(|(k, _)| k == key);
                let result = db.remove(key);
                assert_eq!(result.is_ok(), held.is_some());
                if let Some(i) = held {
                    expected -= live[i].1;
                    live.remove(i);
                }
            }
        }
        assert_eq!(db.size(), expected);
        assert_eq!(db.size(), live.iter().map(|(_, cost)| *cost).sum::<i32>());
    }
    assert_eq!(db.size(), 40);
    assert_eq!(db.get("ccc"), Some(&Value::Integer(0)));
}

#[test]
fn a_negative_limit_admits_nothing() {
    let mut db = MemoryDatabase::with_max_size(-1);
    assert_eq!(
        db.set(String::new(), Value::String(String::new())),
        Err(DatabaseError::MaxSizeExceeded)
    );
    assert_eq!(db.size(), 0);
}

#[test]
fn a_value_is_read_only_as_its_own_kind() {
    let text = Value::String(String::from("test"));
    let as_text: Result<&String, ()> = text.to();
    assert_eq!(as_text, Ok(&String::from("test")));
    let as_integer: Result<&i32, ()> = text.to();
    assert_eq!(as_integer, Err(()));
    let as_float: Result<&u64, ()> = text.to();
    assert_eq!(as_float, Err(()));
    let as_boolean: Result<&bool, ()> = text.to();
    assert_eq!(as_boolean, Err(()));

    let integer = Value::Integer(25);
    let as_integer: Result<&i32, ()> = integer.to();
    assert_eq!(as_integer, Ok(&25));
    let as_text: Result<&String, ()> = integer.to();
    assert_eq!(as_text, Err(()));

    let float = Value::Float(2.5f64.to_bits());
    let as_float: Result<&u64, ()> = float.to();
    assert_eq!(as_float.map(|bits| f64::from_bits(*bits)), Ok(2.5));
    let as_integer: Result<&i32, ()> = float.to();
    assert_eq!(as_integer, Err(()));

    let boolean = Value::Boolean(false);
    let as_boolean: Result<&bool, ()> = boolean.to();
    assert_eq!(as_boolean, Ok(&false));
    let as_float: Result<&u64, ()> = boolean.to();
    assert_eq!(as_float, Err(()));
}
