use plaster::patch::Patch;
use plaster::scope::{Component, ComponentLink, Renderable, Scope};
use plaster::vtree::{VElement, VNode};

/// A component whose state records every message it received, in order, and
/// whose view shows the last message as text.
struct Recorder {
    seen: Vec<u64>,
}

struct RecorderProps;

impl Component for Recorder {
    type Message = u64;
    type Properties = RecorderProps;

    fn create(_props: RecorderProps, _link: &mut ComponentLink<u64>) -> Recorder {
        Recorder { seen: Vec::new() }
    }

    fn update(&mut self, msg: u64, _link: &mut ComponentLink<u64>) -> bool {
        self.seen.push(msg);
        true
    }

    fn change(&mut self, _props: RecorderProps, _link: &mut ComponentLink<u64>) -> bool {
        false
    }
}

impl Renderable for Recorder {
    fn view(&self) -> VNode {
        let label = match self.seen.last() {
            Some(last) => format!("{}", last),
            None => "none".to_string(),
        };
        VNode::Text(label)
    }
}

fn set_texts(patches: &[Patch]) -> Vec<String> {
    patches
        .iter()
        .filter_map(|p| match p {
            Patch::SetText { text, .. } => Some(text.clone()),
            _ => None,
        })
        .collect()
}

#[test]
fn messages_run_in_order_with_renders_between() {
    let mut scope: Scope<Recorder> = Scope::new();
    scope.mount_in_place(RecorderProps);
    scope.send_message(1);
    scope.send_message(2);

    match scope.state() {
        Some(c) => assert_eq!(c.seen, vec![1, 2]),
        None => panic!("component must be live"),
    }
    // the render for the first message was applied before the second
    // message was looked at: the patch log shows the text becoming "1"
    // strictly before it becomes "2"
    assert_eq!(set_texts(scope.patch_log()), vec!["1".to_string(), "2".to_string()]);
}

/// A component whose handler synchronously sends a follow-up message while
/// the counter is positive.
struct Chain {
    hops: u64,
}

impl Component for Chain {
    type Message = u64;
    type Properties = u64;

    fn create(start: u64, link: &mut ComponentLink<u64>) -> Chain {
        if start > 0 {
            link.send_self(start);
        }
        Chain { hops: 0 }
    }

    fn update(&mut self, msg: u64, link: &mut ComponentLink<u64>) -> bool {
        self.hops += 1;
        if msg > 1 {
            link.send_self(msg - 1);
        }
        false
    }

    fn change(&mut self, _props: u64, _link: &mut ComponentLink<u64>) -> bool {
        false
    }
}

impl Renderable for Chain {
    fn view(&self) -> VNode {
        VNode::Text("chain".to_string())
    }
}

#[test]
fn trampoline_handles_long_chains_of_self_sends() {
    // a handler that synchronously sends a follow-up message is queued, not
    // recursed into: a chain of 1000 sends must run to completion
    let mut scope: Scope<Chain> = Scope::new();
    scope.mount_in_place(1000);
    match scope.state() {
        Some(c) => assert_eq!(c.hops, 1000),
        None => panic!("component must be live"),
    }
}

#[test]
fn destroy_silences_pending_work() {
    let mut scope: Scope<Recorder> = Scope::new();
    scope.mount_in_place(RecorderProps);
    scope.send_message(7);
    scope.destroy();
    assert!(scope.is_destroyed());
    assert!(scope.state().is_none());

    let patches_before = scope.patch_log().len();
    scope.send_message(8);

    // a job after Destroy is a silent no-op: no state mutation, no patch,
    // no failure
    assert!(scope.state().is_none());
    assert_eq!(scope.patch_log().len(), patches_before);
    assert!(scope.is_destroyed());
}

/// A component that shows its configuration and re-renders only when it
/// actually changed.
struct Greeting {
    name: String,
}

impl Component for Greeting {
    type Message = u64;
    type Properties = String;

    fn create(props: String, _link: &mut ComponentLink<u64>) -> Greeting {
        Greeting { name: props }
    }

    fn update(&mut self, _msg: u64, _link: &mut ComponentLink<u64>) -> bool {
        false
    }

    fn change(&mut self, props: String, _link: &mut ComponentLink<u64>) -> bool {
        if self.name == props {
            false
        } else {
            self.name = props;
            true
        }
    }
}

impl Renderable for Greeting {
    fn view(&self) -> VNode {
        VNode::Text(self.name.clone())
    }
}

#[test]
fn properties_drive_the_change_entry_point() {
    let mut scope: Scope<Greeting> = Scope::new();
    scope.mount_in_place("hello".to_string());
    let after_mount = scope.patch_log().len();

    // a display-irrelevant configuration does not re-render
    scope.send_properties("hello".to_string());
    assert_eq!(scope.patch_log().len(), after_mount);

    // a changed configuration re-renders in place
    scope.send_properties("goodbye".to_string());
    assert_eq!(set_texts(scope.patch_log()), vec!["goodbye".to_string()]);
}

#[test]
fn first_render_attaches_under_the_mount_point() {
    let mut scope: Scope<Recorder> = Scope::new();
    scope.mount_in_place(RecorderProps);
    let live = scope.live_root();
    let root_id = match live {
        Some(l) => l.id,
        None => panic!("the first render must produce a live root"),
    };
    assert!(scope
        .patch_log()
        .iter()
        .any(|p| matches!(p, Patch::AttachChild { parent: 0, index: 0, child } if *child == root_id)));
}

/// A component whose view declares duplicate sibling keys once poisoned.
struct Flaky {
    poisoned: bool,
}

impl Component for Flaky {
    type Message = bool;
    type Properties = bool;

    fn create(_props: bool, _link: &mut ComponentLink<bool>) -> Flaky {
        Flaky { poisoned: false }
    }

    fn update(&mut self, msg: bool, _link: &mut ComponentLink<bool>) -> bool {
        self.poisoned = msg;
        true
    }

    fn change(&mut self, _props: bool, _link: &mut ComponentLink<bool>) -> bool {
        false
    }
}

impl Renderable for Flaky {
    fn view(&self) -> VNode {
        let keyed = |k: u64| {
            VNode::Element(VElement {
                tag: "li".to_string(),
                attrs: Vec::new(),
                listeners: Vec::new(),
                key: Some(k),
                children: Vec::new(),
            })
        };
        let children = if self.poisoned {
            vec![keyed(1), keyed(1)]
        } else {
            vec![keyed(1), keyed(2)]
        };
        VNode::Element(VElement {
            tag: "ul".to_string(),
            attrs: Vec::new(),
            listeners: Vec::new(),
            key: None,
            children,
        })
    }
}

#[test]
fn rejected_tree_keeps_last_applied_state() {
    let mut scope: Scope<Flaky> = Scope::new();
    scope.mount_in_place(false);
    assert!(scope.live_root().is_some());
    let patches_before = scope.patch_log().len();

    // a duplicate sibling key is a setup error: the render fails, the
    // subtree stays in its last applied state, and the job still completes
    scope.send_message(true);
    assert_eq!(scope.patch_log().len(), patches_before);
    assert!(scope.live_root().is_some());
    assert!(!scope.is_destroyed());
    match scope.state() {
        Some(c) => assert!(c.poisoned, "the update itself still ran"),
        None => panic!("component must be live"),
    }
}
