use department_roster::backend::accounts::{deposit_via_payments, open};
use department_roster::backend::payments::deposit;
use department_roster::borrowing::{
    dummy_return_function, test_mutable_reference, test_references,
};
use department_roster::coins::{
    value_in_cents, value_in_cents_verbose, value_in_cents_with_state, Coin, CoinWithState, State,
};
use department_roster::enums::{
    basic_enum_example, enum_with_data_example, ip_description, message_enum_example, IpAddr,
    IpAddrWithData, Message,
};
use department_roster::fake_mod::fake_main;
use department_roster::fibonacci::fibonacci;
use department_roster::guessing::{evaluate_guess, parse_guess, pick_secret, GuessOutcome};
use department_roster::objects;
use department_roster::outer::hello;
use department_roster::outer::inner::call_outer;
use department_roster::pig_latin::{pig_latin_conversion, pig_latin_word};
use department_roster::records::build_object;
use department_roster::rectangles::{area, Rectangle};
use department_roster::slices::{find_first_word, find_first_word_2};
use department_roster::stats::_find_mode;

#[test]
fn fibonacci_values() {
    assert_eq!(fibonacci(0), 1);
    assert_eq!(fibonacci(1), 1);
    assert_eq!(fibonacci(2), 1);
    assert_eq!(fibonacci(3), 2);
    assert_eq!(fibonacci(6), 8);
    assert_eq!(fibonacci(10), 55);
}

#[test]
fn coin_values() {
    assert_eq!(value_in_cents(Coin::Penny), 1);
    assert_eq!(value_in_cents(Coin::Nickel), 5);
    assert_eq!(value_in_cents(Coin::Dime), 10);
    assert_eq!(value_in_cents(Coin::Quarter), 25);
    assert_eq!(value_in_cents_with_state(CoinWithState::Quarter(State::Alaska)), 25);
    assert_eq!(value_in_cents_with_state(CoinWithState::Penny), 1);
}

#[test]
fn verbose_coins_name_themselves() {
    let (line, value) = value_in_cents_verbose(Coin::Penny);
    assert_eq!(line, "This is a penny");
    assert_eq!(value, 1);
    let (line, value) = value_in_cents_verbose(Coin::Quarter);
    assert_eq!(line, "This is a quarter");
    assert_eq!(value, 25);
}

#[test]
fn address_families_describe_themselves() {
    assert_eq!(ip_description(IpAddr::V4), "This is an IPv4 address");
    assert_eq!(ip_description(IpAddr::V6), "This is an IPv6 address");
    assert_eq!(
        basic_enum_example(),
        vec!["This is an IPv4 address".to_string(), "This is an IPv6 address".to_string()],
    );
    let (v4, v6) = enum_with_data_example();
    match v4 {
        IpAddrWithData::V4(a) => assert_eq!(a, "127.0.0.1"),
        IpAddrWithData::V6(_) => panic!("wrong family"),
    }
    match v6 {
        IpAddrWithData::V6(a) => assert_eq!(a, "::1"),
        IpAddrWithData::V4(_) => panic!("wrong family"),
    }
}

#[test]
fn messages_describe_themselves() {
    assert_eq!(message_enum_example(), "Write message: Hola");
    assert_eq!(Message::Quit.call(), "Quit message");
    assert_eq!(Message::Move { x: -3, y: 12 }.call(), "Move to (-3, 12)");
    assert_eq!(Message::Write("hi".to_string()).call(), "Write message: hi");
    assert_eq!(Message::ChangeColor(255, 0, -1).call(), "Change color to RGB(255, 0, -1)");
}

#[test]
fn rectangle_measurements() {
    let rect = Rectangle::new(40, 60);
    assert_eq!(rect.width(), 40);
    assert_eq!(rect.height(), 60);
    assert_eq!(rect.area(), 2400);
    assert_eq!(rect.perimeter(), 200);
    assert!(!rect.is_square());
    assert!(Rectangle::new(7, 7).is_square());
    assert_eq!(area(30, 50), 1500);
}

#[test]
fn rectangle_containment() {
    let rect1 = Rectangle::new(30, 50);
    let rect2 = Rectangle::new(10, 40);
    let rect3 = Rectangle::new(60, 45);
    assert!(rect1.can_hold(&rect2));
    assert!(!rect1.can_hold(&rect3));
}

#[test]
fn contact_records() {
    let object = build_object("John Doe".to_string(), "example@email.com".to_string());
    assert_eq!(object.name(), "John Doe");
    assert_eq!(object.email(), "example@email.com");
    assert!(object.status());
}

#[test]
fn fresh_objects_carry_id_five() {
    let object = objects::Object::new();
    assert_eq!(object.name(), "");
    assert_eq!(object.desc(), "");
    assert_eq!(object.id(), 5);
}

#[test]
fn module_paths_reach_their_functions() {
    assert_eq!(hello(), "hola outer");
    assert_eq!(call_outer(), "hola outer");
    assert_eq!(deposit(), "Depositing!");
    assert_eq!(fake_main(), "Depositing!");
    assert_eq!(open(), "Opening account!");
    assert_eq!(
        deposit_via_payments(),
        vec!["Depositing!".to_string(), "Depositing!".to_string()],
    );
}

#[test]
fn borrowing_exercises() {
    assert_eq!(dummy_return_function(), "hola");
    let hola = "hola".to_string();
    assert_eq!(test_references(&hola), 4);
    let mut s = "ok: ".to_string();
    test_mutable_reference(&mut s);
    assert_eq!(s, "ok: nah im good.");
}

#[test]
fn first_word_of_a_string() {
    assert_eq!(find_first_word(&"hola amigo".to_string()), 4);
    assert_eq!(find_first_word(&"hola".to_string()), 4);
    assert_eq!(find_first_word(&" hola".to_string()), 0);
    assert_eq!(find_first_word_2("hola amigo"), "hola");
    assert_eq!(find_first_word_2("hola"), "hola");
}

#[test]
fn pig_latin_words() {
    assert_eq!(pig_latin_word("apple"), "appleyay");
    assert_eq!(pig_latin_word("first"), "irstfay");
    assert_eq!(pig_latin_word("hello"), "ellohay");
    assert_eq!(pig_latin_word("can't"), "antcay'");
    assert_eq!(pig_latin_word(""), "ay");
    assert_eq!(pig_latin_word("rhythm"), "rhythmay");
    assert_eq!(pig_latin_word("héllo"), "héllo");
    assert_eq!(pig_latin_word("Apple"), "eApplay");
}

#[test]
fn pig_latin_sentences() {
    let mut words: Vec<String> =
        vec!["this".to_string(), "is".to_string(), "an".to_string(), "apple".to_string()];
    pig_latin_conversion(&mut words);
    assert_eq!(
        words,
        vec![
            "isthay".to_string(),
            "isyay".to_string(),
            "anyay".to_string(),
            "appleyay".to_string(),
        ],
    );
}

#[test]
fn mode_of_the_example_list() {
    assert_eq!(_find_mode(&[1, 1, 5, 6, 6, 7]), 6);
    assert_eq!(_find_mode(&[2, 2, 2, 9, 9, 9]), 9);
    assert_eq!(_find_mode(&[0, 0, 0, 0, 0, 0]), 0);
}

#[test]
fn guesses_are_judged_against_the_secret() {
    assert_eq!(evaluate_guess(3, 7), GuessOutcome::TooSmall);
    assert_eq!(evaluate_guess(9, 7), GuessOutcome::TooBig);
    assert_eq!(evaluate_guess(7, 7), GuessOutcome::Correct);
}

#[test]
fn secrets_fall_within_their_bounds() {
    for _ in 0..200 {
        let secret = pick_secret(1, 10);
        assert!((1..=10).contains(&secret));
    }
    assert_eq!(pick_secret(4, 4), 4);
}

#[test]
fn guesses_are_read_from_raw_lines() {
    assert_eq!(parse_guess(" 42 \n"), Some(42));
    assert_eq!(parse_guess("7"), Some(7));
    assert_eq!(parse_guess("seven"), None);
    assert_eq!(parse_guess(""), None);
    assert_eq!(parse_guess(" 12 34 "), None);
}
