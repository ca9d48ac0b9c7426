use vmm_devices::persist::Persist;

#[derive(Debug, Default, PartialEq)]
struct CounterState {
    n: u64,
}

struct Counter {
    n: u64,
}

impl Persist for Counter {
    type State = CounterState;

    fn save(&self) -> Self::State {
        CounterState { n: self.n }
    }

    fn restore(&mut self, state: Self::State) {
        self.n = state.n;
    }
}

#[test]
fn round_trip() {
    let c = Counter { n: 42 };
    let s = c.save();
    let mut c2 = Counter { n: 0 };
    c2.restore(s);
    assert_eq!(c2.n, 42);
}
