use switch_hosts_rs::data::{ConfigItem, ConfigItemType};
use switch_hosts_rs::list::HostsList;
use switch_hosts_rs::observer::{Observer, Subject};

struct Recorder {
    seen: Vec<String>,
}

impl Observer for Recorder {
    fn update(&mut self, id: &str) {
        self.seen.push(id.to_string());
    }
}

#[test]
pub fn test_pub_sub() {
    let mut subject = Subject::new();
    let a = Recorder { seen: vec![] };
    subject.register(a);
    subject.notify("Button  clicked");
}

struct Counter {
    hits: usize,
}

impl Observer for Counter {
    fn update(&mut self, _id: &str) {
        self.hits += 1;
    }
}

#[test]
fn every_registered_observer_is_notified() {
    let mut subject: Subject<Counter> = Subject::new();
    subject.register(Counter { hits: 0 });
    subject.register(Counter { hits: 0 });
    subject.notify("a");
    subject.notify("b");
}

#[test]
fn selection_moves_reach_the_injected_subject() {
    let mut subject: Subject<Counter> = Subject::new();
    subject.register(Counter { hits: 0 });
    let mut list: HostsList<Counter> = HostsList::new();
    list.inject_subject(subject);
    list.init(vec![ConfigItem::new(
        "a".to_string(),
        false,
        "A".to_string(),
        ConfigItemType::User,
    )]);
    list.toggle_next();
    list.dispatch_subject();
}
