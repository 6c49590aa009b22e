use lessons::articles::returns_trait_struct;
use lessons::articles::Article;
use lessons::articles::NewsArticle;
use lessons::articles::Summary;
use lessons::articles::Tweet;
use lessons::closures::Executor;
use lessons::closures::Inventory;
use lessons::closures::ShirtColor;
use lessons::geometry;
use lessons::list::List;
use lessons::ownership;
use lessons::person::longest;
use lessons::person::Person;
use lessons::points::get_largest;
use lessons::points::DoublePoint;
use lessons::points::Point;
use lessons::primer;
use lessons::restaurant::breaky;
use lessons::segment::graphemes;
use lessons::sorting::BubbleSort;

#[test]
fn small_numbers() {
    assert_eq!(lessons::basics::five(), 5);
    assert_eq!(lessons::basics::plus_one(5), 6);
    assert_eq!(lessons::options::plus_one(Some(5)), Some(6));
    assert_eq!(lessons::options::plus_one(None), None);
    assert_eq!(primer::plusone(Some(41)), Some(42));
    assert_eq!(primer::plusone(None), None);
}

#[test]
fn strings_move_and_change() {
    let s = ownership::gives_ownership();
    assert_eq!(s, "yours now");
    let back = ownership::takes_and_gives_back(String::from("round trip"));
    assert_eq!(back, "round trip");
    assert_eq!(ownership::calculate_length(&String::from("hello")), 5);
    let mut hello = String::from("hello");
    ownership::change(&mut hello);
    assert_eq!(hello, "hello, world!");
    let mut hey = String::from("ho");
    primer::change(&mut hey);
    assert_eq!(hey, "hohey");
    primer::calculate_length(&hey);
}

#[test]
fn first_words() {
    assert_eq!(ownership::first_word("hello world"), "hello");
    assert_eq!(ownership::first_word("alone"), "alone");
    assert_eq!(ownership::first_word(""), "");
    assert_eq!(primer::first_word(&String::from("hello world")), "hello");
    assert_eq!(primer::first_word(&String::from("alone")), "alone");
}

#[test]
fn rectangles_measure_up() {
    let r1 = geometry::Rectangle::new(30, 50);
    assert_eq!(r1.area(), 1500);
    let r2 = geometry::Rectangle::new(10, 40);
    let r3 = geometry::Rectangle::new(60, 45);
    assert!(r1.can_hold(&r2));
    assert!(!r1.can_hold(&r3));
    let mut r4 = geometry::Rectangle::new(5, 10);
    r4.double_size();
    assert_eq!(r4.area(), 200);
    let sq = geometry::Rectangle::square(25);
    assert_eq!(sq.area(), 625);

    let p1 = primer::rect { length: 34, width: 45 };
    let p2 = primer::rect { length: 35, width: 40 };
    assert_eq!(p1.area(), 1530);
    assert!(!p1.compare(&p2));
    let s = primer::rect::sq(4);
    assert_eq!(s.area(), 16);
}

#[test]
fn breakfast_comes_with_juice() {
    let mut meal = breaky::make("oat");
    assert_eq!(meal.food, "oat");
    meal.food = String::from("multigrain");
    assert_eq!(meal.food, "multigrain");
    lessons::restaurant::add();
    lessons::restaurant::add_to_waitlist();
}

#[test]
fn people_and_longest() {
    let person = Person { name: "Ishmael" };
    assert_eq!(person.get_name("test"), "Ishmael");
    assert_eq!(longest("abcd", "xyz"), "abcd");
    assert_eq!(longest("ab", "xyz"), "xyz");
    assert_eq!(longest("abc", "xyz"), "xyz");
}

#[test]
fn points_mix_and_largest() {
    let p = Point { x: 5, y: 99 };
    assert_eq!(p.get_x(), 5);
    let dp1 = DoublePoint { x: 5, y: 2u8 };
    let dp2 = DoublePoint { x: 4, y: 200 };
    let mixed = dp1.mix_up(dp2);
    assert_eq!(mixed.x, 5);
    assert_eq!(mixed.y, 200);
    assert_eq!(get_largest(vec![1, 5, 3, 4, 2]), 5);
    assert_eq!(get_largest(vec!['a', 'f', 'c']), 'f');
}

#[test]
fn shirts_and_cached_closures() {
    let inventory = Inventory {
        shirts: vec![ShirtColor::Red, ShirtColor::Blue, ShirtColor::Red, ShirtColor::Red],
    };
    assert_eq!(inventory.giveaway(None), ShirtColor::Red);
    assert_eq!(inventory.giveaway(Some(ShirtColor::Blue)), ShirtColor::Blue);
    let even = Inventory { shirts: vec![ShirtColor::Red, ShirtColor::Blue] };
    assert_eq!(even.giveaway(None), ShirtColor::Blue);

    let mut executor = Executor::new(|x: i32| x + 1);
    assert_eq!(executor.value(3), 4);
    assert_eq!(executor.value(4), 4);
}

#[test]
fn summaries_read_as_expected() {
    let news = NewsArticle {
        headline: String::from("Breaking News!"),
        location: String::from("New York"),
        author: String::from("Jane Doe"),
        content: String::from("Something important happened..."),
    };
    assert_eq!(
        news.summarize(),
        "(Read Breaking News! from New York... by Jane Doe)"
    );
    assert_eq!(news.summary(), "Breaking News! of New York by Jane Doe");
    let tweet = Tweet {
        username: String::from("rustacean"),
        retweet: true,
        reply: true,
        content: String::from("Rust is awesome!"),
    };
    assert_eq!(tweet.summarize(), "rustacean: Rust is awesome!");
    let fixed = returns_trait_struct();
    assert_eq!(fixed.summarize(), "dd: dd");
}

#[test]
fn list_tails() {
    let list = List::Cons(5, Box::new(List::Cons(10, Box::new(List::Nil))));
    match list.tail() {
        Some(tail) => match tail.as_ref() {
            List::Cons(v, _) => assert_eq!(*v, 10),
            List::Nil => panic!("expected a cons cell"),
        },
        None => panic!("expected a tail"),
    }
    assert!(List::Nil.tail().is_none());
}

#[test]
fn graphemes_split_what_the_eye_sees() {
    let clusters = graphemes("\u{417}\u{434}");
    assert_eq!(clusters, vec!["\u{417}".to_string(), "\u{434}".to_string()]);
    let accented = "e\u{301}a";
    let clusters = graphemes(accented);
    assert_eq!(clusters, vec!["e\u{301}".to_string(), "a".to_string()]);
    assert_eq!(graphemes(""), Vec::<String>::new());
}

#[test]
fn bubble_sort_orders_in_place() {
    let mut data = vec![64, 34, 25, 12, 22, 11, 90];
    BubbleSort.sort(&mut data);
    assert_eq!(data, vec![11, 12, 22, 25, 34, 64, 90]);
    let mut dups = vec![3, 1, 3, 2, 1];
    BubbleSort.sort(&mut dups);
    assert_eq!(dups, vec![1, 1, 2, 3, 3]);
    let mut empty: Vec<i32> = vec![];
    BubbleSort.sort(&mut empty);
    assert_eq!(empty, Vec::<i32>::new());
}
