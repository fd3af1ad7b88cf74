use diggity::probe::{Key, Probe};
use diggity::python::{answer, key_of, Calls, DigError};
use pyo3::types::{PyAnyMethods, PyDict, PyList, PyString, PyTuple};
use pyo3::{Bound, IntoPyObject, PyAny, PyErr, PyResult, Python};

type Object<'py> = Bound<'py, PyAny>;

fn item_by_label<'py>(node: &Object<'py>, label: &str) -> PyResult<Object<'py>> {
    node.get_item(label)
}

fn member_by_label<'py>(node: &Object<'py>, label: &str) -> PyResult<Object<'py>> {
    node.getattr(label)
}

fn item_at<'py>(node: &Object<'py>, position: usize) -> PyResult<Object<'py>> {
    node.get_item(position)
}

fn item_by_key<'py>(node: &Object<'py>, key: &Object<'py>) -> PyResult<Object<'py>> {
    node.get_item(key)
}

fn member_by_name<'py>(node: &Object<'py>, name: &Bound<'py, PyString>) -> PyResult<Object<'py>> {
    node.getattr(name)
}

fn dig<'py>(
    obj: Object<'py>,
    args: &Bound<'py, PyTuple>,
    path: Option<&Bound<'py, PyString>>,
    default_value: Option<Object<'py>>,
    sep: &str,
) -> Result<Option<Object<'py>>, DigError> {
    let calls = Calls { item_by_label, member_by_label, item_at, item_by_key, member_by_name };
    diggity::python::dig(obj, args, path, default_value, sep, &calls)
}

fn dig_path<'py>(
    obj: Object<'py>,
    path: &Bound<'py, PyString>,
    sep: &str,
    default_value: Option<Object<'py>>,
) -> Result<Option<Object<'py>>, DigError> {
    let calls = Calls { item_by_label, member_by_label, item_at, item_by_key, member_by_name };
    diggity::python::dig_path(obj, path, sep, default_value, &calls)
}

fn dig_args<'py>(
    obj: Object<'py>,
    args: &Bound<'py, PyTuple>,
    default_value: Option<Object<'py>>,
) -> Result<Option<Object<'py>>, DigError> {
    let calls = Calls { item_by_label, member_by_label, item_at, item_by_key, member_by_name };
    diggity::python::dig_args(obj, args, default_value, &calls)
}

fn lookup<'py>(node: &Object<'py>, probe: &Probe<'_, Object<'py>>) -> Option<Object<'py>> {
    let calls = Calls { item_by_label, member_by_label, item_at, item_by_key, member_by_name };
    diggity::python::lookup(node, probe, &calls)
}

fn done<'py>(value: Result<Option<Object<'py>>, DigError>) -> Option<Object<'py>> {
    match value {
        Ok(found) => found,
        Err(_) => panic!("the call was refused"),
    }
}

fn number<'py>(py: Python<'py>, n: i64) -> Object<'py> {
    n.into_pyobject(py).unwrap().into_any()
}

fn seen(value: Option<Object<'_>>) -> Option<i64> {
    value.map(|v| v.extract::<i64>().unwrap())
}

fn builtin<'py>(py: Python<'py>, name: &str) -> Object<'py> {
    py.import("builtins").unwrap().getattr(name).unwrap()
}

fn eval<'py>(py: Python<'py>, code: &str) -> Object<'py> {
    builtin(py, "eval").call1((code, PyDict::new(py))).unwrap()
}

fn run<'py>(py: Python<'py>, code: &str) -> Bound<'py, PyDict> {
    let names = PyDict::new(py);
    builtin(py, "exec").call1((code, &names)).unwrap();
    names
}

fn no_args<'py>(py: Python<'py>) -> Bound<'py, PyTuple> {
    PyTuple::empty(py)
}

fn nested<'py>(py: Python<'py>) -> Object<'py> {
    let inner = PyDict::new(py);
    inner.set_item("b", 1).unwrap();
    let outer = PyDict::new(py);
    outer.set_item("a", inner).unwrap();
    outer.into_any()
}

fn lone_surrogate<'py>(py: Python<'py>) -> Bound<'py, PyString> {
    builtin(py, "chr").call1((0xD800,)).unwrap().downcast_into::<PyString>().unwrap()
}

#[test]
fn dig_follows_a_path() {
    Python::with_gil(|py| {
        let path = PyString::new(py, "a.b");
        let value = done(dig(nested(py), &no_args(py), Some(&path), None, "."));
        assert_eq!(seen(value), Some(1));
    });
}

#[test]
fn dig_follows_key_arguments() {
    Python::with_gil(|py| {
        let args = PyTuple::new(py, ["a", "b"]).unwrap();
        let value = done(dig(nested(py), &args, None, None, "."));
        assert_eq!(seen(value), Some(1));
    });
}

#[test]
fn dig_without_keys_or_path_gives_the_object() {
    Python::with_gil(|py| {
        let root = nested(py);
        let value = done(dig(root.clone(), &no_args(py), None, Some(number(py, 5)), "."));
        assert!(value.unwrap().is(&root));
    });
}

#[test]
fn dig_with_empty_path_gives_the_object() {
    Python::with_gil(|py| {
        let root = nested(py);
        let path = PyString::new(py, "");
        let value = done(dig(root.clone(), &no_args(py), Some(&path), Some(number(py, 5)), "."));
        assert!(value.unwrap().is(&root));
        let value = done(dig_path(root.clone(), &path, "", None));
        assert!(value.unwrap().is(&root));
    });
}

#[test]
fn dig_args_with_no_key_gives_the_object() {
    Python::with_gil(|py| {
        let root = nested(py);
        let value = done(dig_args(root.clone(), &no_args(py), Some(number(py, 5))));
        assert!(value.unwrap().is(&root));
    });
}

#[test]
fn dig_gives_the_default_on_a_miss() {
    Python::with_gil(|py| {
        let fallback = number(py, 1000);
        let path = PyString::new(py, "a.x");
        let value = done(dig(nested(py), &no_args(py), Some(&path), Some(fallback.clone()), "."));
        assert!(value.unwrap().is(&fallback));
        let args = PyTuple::new(py, ["x"]).unwrap();
        let value = done(dig(nested(py), &args, None, Some(fallback.clone()), "."));
        assert!(value.unwrap().is(&fallback));
        let path = PyString::new(py, "a.b.");
        let value = done(dig_path(nested(py), &path, ".", Some(fallback.clone())));
        assert!(value.unwrap().is(&fallback));
    });
}

#[test]
fn dig_gives_nothing_on_a_miss_without_default() {
    Python::with_gil(|py| {
        let path = PyString::new(py, "a.x");
        assert!(done(dig(nested(py), &no_args(py), Some(&path), None, ".")).is_none());
        let args = PyTuple::new(py, ["a", "x"]).unwrap();
        assert!(done(dig(nested(py), &args, None, None, ".")).is_none());
    });
}

#[test]
fn dig_reads_attributes() {
    Python::with_gil(|py| {
        let root = eval(
            py,
            "__import__('types').SimpleNamespace(a=__import__('types').SimpleNamespace(b=2), c={'d': 3})",
        );
        let path = PyString::new(py, "a.b");
        assert_eq!(seen(done(dig_path(root.clone(), &path, ".", None))), Some(2));
        let path = PyString::new(py, "c.d");
        assert_eq!(seen(done(dig_path(root.clone(), &path, ".", None))), Some(3));
        let args = PyTuple::new(py, ["c", "d"]).unwrap();
        assert_eq!(seen(done(dig_args(root, &args, None))), Some(3));
    });
}

#[test]
fn dig_prefers_item_over_attribute() {
    Python::with_gil(|py| {
        let root = eval(py, "type('D', (dict,), {'keys_seen': 7})({'keys_seen': 1})");
        let path = PyString::new(py, "keys_seen");
        assert_eq!(seen(done(dig_path(root.clone(), &path, ".", None))), Some(1));
        let path = PyString::new(py, "other");
        assert_eq!(seen(done(dig_path(root, &path, ".", None))), None);
    });
}

#[test]
fn dig_stops_at_the_first_miss() {
    Python::with_gil(|py| {
        let locals = run(
            py,
            "
class Trap:
    def __init__(self):
        self.calls = []
    def __getitem__(self, key):
        self.calls.append(('item', key))
        if key == 'boom':
            raise RuntimeError('reached')
        raise KeyError(key)
    def __getattr__(self, name):
        self.calls.append(('attr', name))
        if name == 'boom':
            raise RuntimeError('reached')
        raise AttributeError(name)
trap = Trap()
root = {'a': trap}
",
        );
        let root = locals.get_item("root").unwrap();
        let trap = locals.get_item("trap").unwrap();
        let path = PyString::new(py, "a.missing.boom.more");
        let value = done(dig_path(root.clone(), &path, ".", Some(number(py, 0))));
        assert_eq!(seen(value), Some(0));
        let calls: Vec<(String, String)> = trap.getattr("calls").unwrap().extract().unwrap();
        assert_eq!(
            calls,
            vec![
                ("item".to_string(), "missing".to_string()),
                ("attr".to_string(), "missing".to_string()),
            ]
        );
        trap.getattr("calls").unwrap().call_method0("clear").unwrap();
        let args = PyTuple::new(py, ["a", "missing", "boom"]).unwrap();
        assert!(done(dig_args(root, &args, None)).is_none());
        let calls: Vec<(String, String)> = trap.getattr("calls").unwrap().extract().unwrap();
        assert_eq!(calls.len(), 2);
    });
}

#[test]
fn dig_takes_any_error_of_a_lookup_as_a_miss() {
    Python::with_gil(|py| {
        let root = eval(
            py,
            "type('Bad', (), {'__getitem__': lambda self, key: 1 // 0, '__getattr__': lambda self, name: [][5]})()",
        );
        let path = PyString::new(py, "x");
        assert_eq!(seen(done(dig_path(root, &path, ".", Some(number(py, 4))))), Some(4));
    });
}

#[test]
fn dig_tries_digits_as_a_label_first() {
    Python::with_gil(|py| {
        let root = eval(
            py,
            "type('Both', (), {'__getitem__': lambda self, key: {'3': 33, 3: 3}[key]})()",
        );
        let path = PyString::new(py, "3");
        assert_eq!(seen(done(dig_path(root, &path, ".", None))), Some(33));
        let keyed = eval(py, "{'3': 33, 3: 3}");
        assert_eq!(seen(done(dig_path(keyed, &path, ".", None))), Some(33));
    });
}

#[test]
fn dig_tries_digits_as_a_position_last() {
    Python::with_gil(|py| {
        let root = eval(py, "{'rows': [10, 11, 12, 13]}");
        let path = PyString::new(py, "rows.3");
        assert_eq!(seen(done(dig_path(root.clone(), &path, ".", None))), Some(13));
        let path = PyString::new(py, "rows.4");
        assert_eq!(seen(done(dig_path(root.clone(), &path, ".", None))), None);
        let path = PyString::new(py, "rows.-1");
        assert_eq!(seen(done(dig_path(root, &path, ".", None))), None);
        let keyed = eval(py, "{3: 'three'}");
        let path = PyString::new(py, "3");
        let value = done(dig_path(keyed, &path, ".", None)).unwrap();
        assert_eq!(value.extract::<String>().unwrap(), "three");
    });
}

#[test]
fn dig_takes_the_separator_given() {
    Python::with_gil(|py| {
        let path = PyString::new(py, "a/b");
        assert_eq!(seen(done(dig(nested(py), &no_args(py), Some(&path), None, "/"))), Some(1));
        assert_eq!(seen(done(dig(nested(py), &no_args(py), Some(&path), None, "."))), None);
        let path = PyString::new(py, "a->b");
        assert_eq!(seen(done(dig(nested(py), &no_args(py), Some(&path), None, "->"))), Some(1));
    });
}

#[test]
fn dig_reads_text_beyond_ascii() {
    Python::with_gil(|py| {
        let root = eval(py, "{'é': {'日本': 1}}");
        let path = PyString::new(py, "é.日本");
        assert_eq!(seen(done(dig_path(root.clone(), &path, ".", None))), Some(1));
        let path = PyString::new(py, "é本日本");
        assert_eq!(seen(done(dig_path(root, &path, "本", None))), None);
    });
}

#[test]
fn dig_mixes_kinds_of_keys() {
    Python::with_gil(|py| {
        let root = eval(py, "[{'x': 1}]");
        let args = PyTuple::new(py, [number(py, 0), PyString::new(py, "x").into_any()]).unwrap();
        assert_eq!(seen(done(dig(root, &args, None, None, "."))), Some(1));
    });
}

#[test]
fn dig_uses_a_key_argument_as_it_is() {
    Python::with_gil(|py| {
        let root = eval(py, "{(1, 2): 12, 'a.b': 5, -1: 9}");
        let pair = eval(py, "(1, 2)");
        let args = PyTuple::new(py, [pair]).unwrap();
        assert_eq!(seen(done(dig_args(root.clone(), &args, None))), Some(12));
        let args = PyTuple::new(py, ["a.b"]).unwrap();
        assert_eq!(seen(done(dig_args(root.clone(), &args, None))), Some(5));
        let args = PyTuple::new(py, [number(py, -1)]).unwrap();
        assert_eq!(seen(done(dig_args(root, &args, None))), Some(9));
        let list = eval(py, "[10, 11, 12]");
        let args = PyTuple::new(py, [number(py, -1)]).unwrap();
        assert_eq!(seen(done(dig_args(list, &args, None))), Some(12));
    });
}

#[test]
fn dig_gives_a_text_key_no_position() {
    Python::with_gil(|py| {
        let root = eval(py, "[10, 11]");
        let args = PyTuple::new(py, ["1"]).unwrap();
        assert_eq!(seen(done(dig_args(root.clone(), &args, Some(number(py, 0))))), Some(0));
        let path = PyString::new(py, "1");
        assert_eq!(seen(done(dig_path(root, &path, ".", Some(number(py, 0))))), Some(11));
    });
}

#[test]
fn dig_prefers_key_arguments_to_the_path() {
    Python::with_gil(|py| {
        let root = eval(py, "{'a': 1, 'b': 2}");
        let args = PyTuple::new(py, ["a"]).unwrap();
        let path = PyString::new(py, "b");
        assert_eq!(seen(done(dig(root.clone(), &args, Some(&path), None, "."))), Some(1));
        assert_eq!(seen(done(dig(root.clone(), &no_args(py), Some(&path), None, "."))), Some(2));
        let unreadable = lone_surrogate(py);
        assert_eq!(seen(done(dig(root, &args, Some(&unreadable), None, "."))), Some(1));
    });
}

#[test]
fn dig_refuses_a_path_that_is_no_text() {
    Python::with_gil(|py| {
        let unreadable = lone_surrogate(py);
        let value = dig(nested(py), &no_args(py), Some(&unreadable), Some(number(py, 0)), ".");
        assert!(matches!(value, Err(DigError::UnreadablePath(_))));
        let value = dig_path(nested(py), &unreadable, ".", None);
        assert!(matches!(value, Err(DigError::UnreadablePath(_))));
    });
}

#[test]
fn key_of_tells_strings_from_other_keys() {
    Python::with_gil(|py| {
        assert!(matches!(key_of(PyString::new(py, "x").into_any()), Key::Text(_)));
        assert!(matches!(key_of(eval(py, "type('S', (str,), {})('x')")), Key::Text(_)));
        assert!(matches!(key_of(number(py, 1)), Key::Other(_)));
        assert!(matches!(key_of(eval(py, "b'x'")), Key::Other(_)));
        assert!(matches!(key_of(eval(py, "None")), Key::Other(_)));
        let key = eval(py, "('x',)");
        match key_of(key.clone()) {
            Key::Other(held) => assert!(held.is(&key)),
            Key::Text(_) => panic!("a tuple was taken for text"),
        }
    });
}

#[test]
fn lookup_asks_what_the_probe_says() {
    Python::with_gil(|py| {
        let node = eval(
            py,
            "type('N', (dict,), {'name': 'member'})({'name': 'item', 0: 'zero', 'k': 'key'})",
        );
        let said = |v: Option<Object<'_>>| v.map(|v| v.extract::<String>().unwrap());
        assert_eq!(said(lookup(&node, &Probe::ItemByLabel("name"))), Some("item".to_string()));
        assert_eq!(said(lookup(&node, &Probe::MemberByLabel("name"))), Some("member".to_string()));
        assert_eq!(said(lookup(&node, &Probe::ItemAt(0))), Some("zero".to_string()));
        assert_eq!(said(lookup(&node, &Probe::ItemAt(1))), None);
        let key = PyString::new(py, "name").into_any();
        assert_eq!(said(lookup(&node, &Probe::ItemByKey(&key))), Some("item".to_string()));
        assert_eq!(said(lookup(&node, &Probe::MemberByKey(&key))), Some("member".to_string()));
        let zero = number(py, 0);
        assert_eq!(said(lookup(&node, &Probe::ItemByKey(&zero))), Some("zero".to_string()));
        assert_eq!(said(lookup(&node, &Probe::MemberByKey(&zero))), None);
        assert_eq!(said(lookup(&node, &Probe::ItemByLabel("none"))), None);
        assert_eq!(said(lookup(&node, &Probe::MemberByLabel("none"))), None);
    });
}

#[test]
fn lookup_asks_for_no_member_by_a_key_that_is_no_string() {
    Python::with_gil(|py| {
        let locals = run(
            py,
            "
class Watch:
    def __init__(self):
        self.asked = 0
    def __getattribute__(self, name):
        if name != 'asked':
            object.__setattr__(self, 'asked', object.__getattribute__(self, 'asked') + 1)
        return object.__getattribute__(self, name)
watch = Watch()
",
        );
        let watch = locals.get_item("watch").unwrap();
        let args = PyTuple::new(py, [number(py, 3)]).unwrap();
        assert!(done(dig_args(watch.clone(), &args, None)).is_none());
        assert_eq!(watch.getattr("asked").unwrap().extract::<i64>().unwrap(), 0);
        let list = PyList::new(py, [1, 2]).unwrap().into_any();
        let args = PyTuple::new(py, [list]).unwrap();
        assert!(done(dig_args(watch.clone(), &args, None)).is_none());
        assert_eq!(watch.getattr("asked").unwrap().extract::<i64>().unwrap(), 0);
    });
}

#[test]
fn answer_takes_an_error_as_no_answer() {
    Python::with_gil(|py| {
        let found = number(py, 7);
        let reply = answer(Ok(found.clone()));
        assert!(reply.unwrap().is(&found));
        let raised = pyo3::exceptions::PyKeyError::new_err("missing");
        assert!(answer(Err(raised)).is_none());
        let raised = pyo3::exceptions::PyRuntimeError::new_err("broken");
        assert!(answer(Err(raised)).is_none());
    });
}

fn lookup_by_marked_calls<'py>(py: Python<'py>) {
    let node = number(py, 0);
    let calls = Calls {
        item_by_label: |_: &Object<'py>, label: &str| -> PyResult<Object<'py>> {
            Ok(number(py, 100 + label.len() as i64))
        },
        member_by_label: |_: &Object<'py>, label: &str| -> PyResult<Object<'py>> {
            Ok(number(py, 200 + label.len() as i64))
        },
        item_at: |_: &Object<'py>, position: usize| -> PyResult<Object<'py>> {
            Ok(number(py, 300 + position as i64))
        },
        item_by_key: |_: &Object<'py>, key: &Object<'py>| -> PyResult<Object<'py>> {
            Ok(number(py, 400 + key.extract::<i64>().unwrap_or(0)))
        },
        member_by_name: |_: &Object<'py>, name: &Bound<'py, PyString>| -> PyResult<Object<'py>> {
            Ok(number(py, 500 + name.len().unwrap() as i64))
        },
    };
    let five = number(py, 5);
    let name = PyString::new(py, "abcdef").into_any();
    assert_eq!(seen(diggity::python::lookup(&node, &Probe::ItemByLabel("ab"), &calls)), Some(102));
    assert_eq!(seen(diggity::python::lookup(&node, &Probe::MemberByLabel("abc"), &calls)), Some(203));
    assert_eq!(seen(diggity::python::lookup(&node, &Probe::ItemAt(4), &calls)), Some(304));
    assert_eq!(seen(diggity::python::lookup(&node, &Probe::ItemByKey(&five), &calls)), Some(405));
    assert_eq!(seen(diggity::python::lookup(&node, &Probe::MemberByKey(&five), &calls)), None);
    assert_eq!(seen(diggity::python::lookup(&node, &Probe::ItemByKey(&name), &calls)), Some(400));
    assert_eq!(seen(diggity::python::lookup(&node, &Probe::MemberByKey(&name), &calls)), Some(506));
}

#[test]
fn lookup_makes_the_call_that_the_probe_names() {
    Python::with_gil(|py| lookup_by_marked_calls(py));
}

fn lookup_by_failing_calls<'py>(py: Python<'py>) {
    let node = number(py, 0);
    let refuse = || -> PyErr { pyo3::exceptions::PyKeyError::new_err("refused") };
    let calls = Calls {
        item_by_label: |_: &Object<'py>, _: &str| -> PyResult<Object<'py>> { Err(refuse()) },
        member_by_label: |_: &Object<'py>, _: &str| -> PyResult<Object<'py>> { Err(refuse()) },
        item_at: |_: &Object<'py>, _: usize| -> PyResult<Object<'py>> { Err(refuse()) },
        item_by_key: |_: &Object<'py>, _: &Object<'py>| -> PyResult<Object<'py>> { Err(refuse()) },
        member_by_name: |_: &Object<'py>, _: &Bound<'py, PyString>| -> PyResult<Object<'py>> {
            Err(refuse())
        },
    };
    let name = PyString::new(py, "x").into_any();
    assert!(diggity::python::lookup(&node, &Probe::ItemByLabel("x"), &calls).is_none());
    assert!(diggity::python::lookup(&node, &Probe::MemberByLabel("x"), &calls).is_none());
    assert!(diggity::python::lookup(&node, &Probe::ItemAt(0), &calls).is_none());
    assert!(diggity::python::lookup(&node, &Probe::ItemByKey(&name), &calls).is_none());
    assert!(diggity::python::lookup(&node, &Probe::MemberByKey(&name), &calls).is_none());
    let path = PyString::new(py, "a.b");
    let value = diggity::python::dig_path(node.clone(), &path, ".", Some(number(py, 9)), &calls);
    assert_eq!(seen(done(value)), Some(9));
}

#[test]
fn lookup_takes_an_error_of_the_call_as_no_answer() {
    Python::with_gil(|py| lookup_by_failing_calls(py));
}

fn dig_by_recording_calls<'py>(py: Python<'py>) {
    let asked: std::cell::RefCell<Vec<String>> = std::cell::RefCell::new(Vec::new());
    let miss = || -> PyErr { pyo3::exceptions::PyKeyError::new_err("miss") };
    let calls = Calls {
        item_by_label: |_: &Object<'py>, label: &str| -> PyResult<Object<'py>> {
            asked.borrow_mut().push(format!("item {}", label));
            Err(miss())
        },
        member_by_label: |_: &Object<'py>, label: &str| -> PyResult<Object<'py>> {
            asked.borrow_mut().push(format!("member {}", label));
            Err(miss())
        },
        item_at: |node: &Object<'py>, position: usize| -> PyResult<Object<'py>> {
            asked.borrow_mut().push(format!("at {}", position));
            node.get_item(position)
        },
        item_by_key: |_: &Object<'py>, _: &Object<'py>| -> PyResult<Object<'py>> {
            asked.borrow_mut().push("key".to_string());
            Err(miss())
        },
        member_by_name: |_: &Object<'py>, _: &Bound<'py, PyString>| -> PyResult<Object<'py>> {
            asked.borrow_mut().push("name".to_string());
            Err(miss())
        },
    };
    let root = eval(py, "[[10, 11], [20, 21]]");
    let path = PyString::new(py, "1.0.x.7");
    let value = diggity::python::dig_path(root.clone(), &path, ".", Some(number(py, -1)), &calls);
    assert_eq!(seen(done(value)), Some(-1));
    assert_eq!(
        *asked.borrow(),
        vec!["item 1", "member 1", "at 1", "item 0", "member 0", "at 0", "item x", "member x"]
    );
    asked.borrow_mut().clear();
    let path = PyString::new(py, "1.1");
    let value = diggity::python::dig_path(root.clone(), &path, ".", None, &calls);
    assert_eq!(seen(done(value)), Some(21));
    asked.borrow_mut().clear();
    let args = PyTuple::new(py, [number(py, 1), PyString::new(py, "k").into_any()]).unwrap();
    let value = diggity::python::dig_args(root.clone(), &args, None, &calls);
    assert!(done(value).is_none());
    assert_eq!(*asked.borrow(), vec!["key"]);
    asked.borrow_mut().clear();
    let args = PyTuple::new(py, [PyString::new(py, "k").into_any(), number(py, 1)]).unwrap();
    let value = diggity::python::dig(root, &args, Some(&path), None, ".", &calls);
    assert!(done(value).is_none());
    assert_eq!(*asked.borrow(), vec!["key", "name"]);
}

#[test]
fn dig_asks_through_the_calls_in_order() {
    Python::with_gil(|py| dig_by_recording_calls(py));
}
