use folderer::Adder;
use folderer::Combine;
use folderer::HasDefault;

/* Test builtin type */

#[test]
fn test_builtin_usize() {
    let mut sum: Adder<usize> = Adder::from_items(vec![1, 2, 3, 4, 5]);
    println!("{:?}", sum);
    assert_eq!(*sum.read(), 15);
    sum.extend(vec![10, 9, 8, 7, 6]);
    assert_eq!(*sum.read(), 55);
}

/* Test a floating-point inner value behind a newtype that combines by
 * in-place addition */

#[derive(Debug, PartialEq)]
struct F32Sum(f32);

impl Combine<f32> for F32Sum {
    fn can_combine(self, _item: f32) -> bool {
        true
    }
    fn combined(self, item: f32) -> Self {
        F32Sum(self.0 + item)
    }
    fn combine(&mut self, item: f32) {
        self.0 += item;
    }
}

impl HasDefault for F32Sum {
    fn spec_default() -> Self {
        F32Sum(0.0)
    }
    fn default_value() -> Self {
        F32Sum(0.0)
    }
}

#[test]
fn test_builtin_f32() {
    let mut sum: Adder<F32Sum> = Adder::from_items(vec![1.0, 2.0, 3.0, 4.0, 5.0]);
    assert_eq!(*sum.read(), F32Sum(15.0));
    sum.push(10.0);
    assert_eq!(*sum.read(), F32Sum(25.0));
    let sum2: Adder<F32Sum> = Adder::from(F32Sum(10.0));
    assert_eq!(sum2.into_inner(), F32Sum(10.0));
}

/* Test newtype wrapper with default */

#[derive(Debug, PartialEq, Eq)]
struct Usize1(usize);

impl Combine<Usize1> for Usize1 {
    fn can_combine(self, _item: Usize1) -> bool {
        true
    }
    fn combined(self, item: Usize1) -> Self {
        Usize1(self.0 + item.0)
    }
    fn combine(&mut self, item: Usize1) {
        self.0 += item.0;
    }
}

impl HasDefault for Usize1 {
    fn spec_default() -> Self {
        Usize1(0)
    }
    fn default_value() -> Self {
        Usize1(0)
    }
}

#[test]
fn adder_tests_test_newtype_with_default() {
    let items: Vec<Usize1> = (1..=5).map(Usize1).collect();
    let mut sum: Adder<Usize1> = Adder::from_items(items);
    assert_eq!(*sum.read(), Usize1(15));
    let mut more: Vec<Usize1> = (6..=10).map(Usize1).collect();
    more.reverse();
    sum.extend(more);
    assert_eq!(*sum.read(), Usize1(55));
}

/* Test newtype wrapper without default: building from items needs one */

#[derive(Debug)]
struct Usize2(pub usize);

impl Combine<Usize2> for Usize2 {
    fn can_combine(self, _item: Usize2) -> bool {
        true
    }
    fn combined(self, item: Usize2) -> Self {
        Usize2(self.0 + item.0)
    }
    fn combine(&mut self, item: Usize2) {
        self.0 += item.0;
    }
}

#[test]
fn adder_tests_test_newtype_without_default() {
    let mut sum = Adder::<Usize2>::from(Usize2(0));
    let mut items: Vec<Usize2> = (1..=5).map(Usize2).collect();
    items.reverse();
    sum.extend(items);
    assert_eq!(sum.read().0, 15);
}

/* Test newtype wrapper over a vector of strings, neither of which is Copy,
 * combining by push */

#[derive(Debug)]
struct Myvec(pub Vec<String>);

impl Combine<String> for Myvec {
    fn can_combine(self, _item: String) -> bool {
        true
    }
    fn combined(self, item: String) -> Self {
        let mut next = self.0;
        next.push(item);
        Myvec(next)
    }
    fn combine(&mut self, item: String) {
        self.0.push(item);
    }
}

impl HasDefault for Myvec {
    fn spec_default() -> Self {
        Myvec(Vec::new())
    }
    fn default_value() -> Self {
        Myvec(Vec::new())
    }
}

#[test]
fn adder_tests_test_newtype_vec() {
    let f = |v: i32| format!("{}", v);
    let mut acc: Adder<Myvec> = Adder::from_items((1..=5).map(f).collect());
    let mut more: Vec<String> = (6..10).map(f).collect();
    more.reverse();
    acc.extend(more);
    assert_eq!(acc.read().0, vec!["1", "2", "3", "4", "5", "9", "8", "7", "6"]);
    assert_eq!(
        acc.into_inner().0,
        vec!["1", "2", "3", "4", "5", "9", "8", "7", "6"]
    );
}

/* Extending with two sequences in turn ends as extending once with their
 * concatenation */

#[test]
fn test_adder_extend_is_associative() {
    let mut split: Adder<usize> = Adder::from(100);
    split.extend(vec![1, 2]);
    split.extend(vec![3, 4, 5]);
    let mut joined: Adder<usize> = Adder::from(100);
    joined.extend(vec![1, 2, 3, 4, 5]);
    assert_eq!(*split.read(), *joined.read());
    assert_eq!(*split.read(), 115);
}

/* Unwrapping after a run of pushes returns exactly the sequential sum,
 * starting from the construction-time initial value */

#[test]
fn test_adder_unwrap_after_pushes() {
    let mut sum: Adder<usize> = Adder::from(7);
    sum.push(1usize);
    sum.push(2usize);
    sum.push(3usize);
    assert_eq!(sum.into_inner(), 7 + 1 + 2 + 3);
}

/* Extending with nothing changes nothing */

#[test]
fn test_adder_extend_empty() {
    let mut sum: Adder<usize> = Adder::from(42);
    sum.extend(Vec::new());
    assert_eq!(*sum.read(), 42);
    let empty: Adder<usize> = Adder::from_items(Vec::new());
    assert_eq!(empty.into_inner(), 0);
    let fresh: Adder<usize> = Adder::default();
    assert_eq!(fresh.into_inner(), 0);
}
