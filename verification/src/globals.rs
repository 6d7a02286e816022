//! Predefined effects for standard global objects and functions. Entries are
//! contracts for the standard implementations, not guarantees about monkey-patched
//! globals or host I/O failures. Unknown entries are never assumed non-throwing.
use crate::error::{builtin_view, unknown_view, ErrorTypeView, EscErrorType};
use crate::set::views;
use crate::text::chars_of;
use vstd::prelude::*;

verus! {

/// An argument rule of a global call: the effects a call may have when the
/// argument's type cannot rule out coercion, property access or iteration.
#[derive(Debug)]
pub struct EscGlobalArgument {
    /// None applies the rule to all supplied arguments.
    pub index: Option<usize>,
    pub safe_types: Vec<String>,
    pub errors: Vec<EscErrorType>,
}

/// The effects of calling or constructing a global.
#[derive(Debug)]
pub struct EscGlobalCall {
    pub errors: Vec<EscErrorType>,
    pub returns: String,
    /// Additional effects when argument types cannot rule out coercion,
    /// property access, iteration, or custom formatting.
    pub arguments: Vec<EscGlobalArgument>,
    pub min_arguments: usize,
    pub missing_arguments_errors: Vec<EscErrorType>,
}

/// A standard global object, function or property.
#[derive(Debug)]
pub struct EscGlobal {
    pub path: String,
    pub value_type: String,
    pub read_errors: Vec<EscErrorType>,
    pub call: Option<EscGlobalCall>,
    pub construct: Option<EscGlobalCall>,
    pub instance_type: Option<String>,
}

/// The view of an argument rule.
pub struct ArgumentView {
    pub index: Option<usize>,
    pub safe_types: Seq<Seq<char>>,
    pub errors: Seq<ErrorTypeView>,
}

/// The view of call effects.
pub struct CallView {
    pub errors: Seq<ErrorTypeView>,
    pub returns: Seq<char>,
    pub arguments: Seq<ArgumentView>,
    pub min_arguments: usize,
    pub missing_arguments_errors: Seq<ErrorTypeView>,
}

/// The view of a global entry.
pub struct GlobalView {
    pub path: Seq<char>,
    pub value_type: Seq<char>,
    pub read_errors: Seq<ErrorTypeView>,
    pub call: Option<CallView>,
    pub construct: Option<CallView>,
    pub instance_type: Option<Seq<char>>,
}

/// The views of a sequence of strings.
pub open spec fn string_views(s: Seq<String>) -> Seq<Seq<char>> {
    s.map_values(|x: String| x@)
}

impl View for EscGlobalArgument {
    type V = ArgumentView;

    open spec fn view(&self) -> ArgumentView {
        ArgumentView {
            index: self.index,
            safe_types: string_views(self.safe_types@),
            errors: views(self.errors@),
        }
    }
}

/// The views of a sequence of argument rules.
pub open spec fn argument_views(s: Seq<EscGlobalArgument>) -> Seq<ArgumentView> {
    s.map_values(|x: EscGlobalArgument| x@)
}

impl View for EscGlobalCall {
    type V = CallView;

    open spec fn view(&self) -> CallView {
        CallView {
            errors: views(self.errors@),
            returns: self.returns@,
            arguments: argument_views(self.arguments@),
            min_arguments: self.min_arguments,
            missing_arguments_errors: views(self.missing_arguments_errors@),
        }
    }
}

/// The view of an optional call.
pub open spec fn call_view(c: Option<EscGlobalCall>) -> Option<CallView> {
    match c {
        Some(c) => Some(c@),
        None => None,
    }
}

impl View for EscGlobal {
    type V = GlobalView;

    open spec fn view(&self) -> GlobalView {
        GlobalView {
            path: self.path@,
            value_type: self.value_type@,
            read_errors: views(self.read_errors@),
            call: call_view(self.call),
            construct: call_view(self.construct),
            instance_type: match self.instance_type {
                Some(t) => Some(t@),
                None => None,
            },
        }
    }
}

/// The view of an optional global.
pub open spec fn global_view(g: Option<EscGlobal>) -> Option<GlobalView> {
    match g {
        Some(g) => Some(g@),
        None => None,
    }
}

/// The views of a sequence of globals.
pub open spec fn global_views(s: Seq<EscGlobal>) -> Seq<GlobalView> {
    s.map_values(|x: EscGlobal| x@)
}

pub open spec fn primitives_view() -> Seq<Seq<char>> {
    seq!["string"@, "number"@, "boolean"@, "undefined"@, "null"@]
}

pub open spec fn format_arguments_view() -> Seq<ArgumentView> {
    seq![ArgumentView { index: None, safe_types: primitives_view(), errors: seq![unknown_view()] }]
}

pub open spec fn message_arguments_view() -> Seq<ArgumentView> {
    seq![
        ArgumentView { index: Some(0), safe_types: primitives_view(), errors: seq![unknown_view()] },
        ArgumentView { index: Some(1), safe_types: primitives_view(), errors: seq![unknown_view()] },
    ]
}

pub open spec fn aggregate_arguments_view() -> Seq<ArgumentView> {
    seq![
        ArgumentView {
            index: Some(0),
            safe_types: seq!["Array"@, "string"@],
            errors: seq![unknown_view()],
        },
        ArgumentView { index: Some(1), safe_types: primitives_view(), errors: seq![unknown_view()] },
        ArgumentView { index: Some(2), safe_types: primitives_view(), errors: seq![unknown_view()] },
    ]
}

pub open spec fn suppressed_arguments_view() -> Seq<ArgumentView> {
    seq![ArgumentView { index: Some(2), safe_types: primitives_view(), errors: seq![unknown_view()] }]
}

/// A plain object global.
pub open spec fn object_view(path: Seq<char>) -> GlobalView {
    GlobalView {
        path,
        value_type: "object"@,
        read_errors: seq![],
        call: None,
        construct: None,
        instance_type: None,
    }
}

/// A callable global.
pub open spec fn function_view(
    path: Seq<char>,
    return_type: Seq<char>,
    errors: Seq<ErrorTypeView>,
    arguments: Seq<ArgumentView>,
) -> GlobalView {
    GlobalView {
        path,
        value_type: "Function"@,
        read_errors: seq![],
        call: Some(
            CallView {
                errors,
                returns: return_type,
                arguments,
                min_arguments: 0,
                missing_arguments_errors: seq![],
            },
        ),
        construct: None,
        instance_type: None,
    }
}

/// The effects of calling or constructing an error constructor.
pub open spec fn error_call_view(
    path: Seq<char>,
    arguments: Seq<ArgumentView>,
    min_arguments: usize,
) -> CallView {
    CallView {
        errors: seq![],
        returns: path,
        arguments,
        min_arguments,
        missing_arguments_errors: seq![builtin_view("TypeError"@)],
    }
}

/// An error constructor global.
pub open spec fn error_view(path: Seq<char>, arguments: Seq<ArgumentView>, min_arguments: usize) -> GlobalView {
    GlobalView {
        path,
        value_type: "Function"@,
        read_errors: seq![],
        call: Some(error_call_view(path, arguments, min_arguments)),
        construct: Some(error_call_view(path, arguments, min_arguments)),
        instance_type: Some(path),
    }
}

/// The standard globals, in table order.
pub open spec fn globals_table() -> Seq<GlobalView> {
    seq![
        object_view("globalThis"@),
        object_view("console"@),
        function_view("console.log"@, "undefined"@, seq![], format_arguments_view()),
        function_view("console.info"@, "undefined"@, seq![], format_arguments_view()),
        function_view("console.warn"@, "undefined"@, seq![], format_arguments_view()),
        function_view("console.error"@, "undefined"@, seq![], format_arguments_view()),
        function_view("console.debug"@, "undefined"@, seq![], format_arguments_view()),
        object_view("JSON"@),
        function_view("JSON.parse"@, "unknown"@, seq![builtin_view("SyntaxError"@)], format_arguments_view()),
        function_view("JSON.stringify"@, "string"@, seq![builtin_view("TypeError"@)], format_arguments_view()),
        object_view("Math"@),
        function_view("Math.abs"@, "number"@, seq![], format_arguments_view()),
        function_view("Math.floor"@, "number"@, seq![], format_arguments_view()),
        function_view("Math.ceil"@, "number"@, seq![], format_arguments_view()),
        function_view("Math.random"@, "number"@, seq![], seq![]),
        function_view("parseInt"@, "number"@, seq![], format_arguments_view()),
        function_view("parseFloat"@, "number"@, seq![], format_arguments_view()),
        function_view("encodeURIComponent"@, "string"@, seq![builtin_view("URIError"@)], format_arguments_view()),
        function_view("decodeURIComponent"@, "string"@, seq![builtin_view("URIError"@)], format_arguments_view()),
        error_view("Error"@, message_arguments_view(), 0),
        error_view("EvalError"@, message_arguments_view(), 0),
        error_view("RangeError"@, message_arguments_view(), 0),
        error_view("ReferenceError"@, message_arguments_view(), 0),
        error_view("SyntaxError"@, message_arguments_view(), 0),
        error_view("TypeError"@, message_arguments_view(), 0),
        error_view("URIError"@, message_arguments_view(), 0),
        error_view("AggregateError"@, aggregate_arguments_view(), 1),
        error_view("SuppressedError"@, suppressed_arguments_view(), 0),
    ]
}
/// The first entry, from position `i` on, whose path is `path`.
pub open spec fn find_global_from(table: Seq<GlobalView>, path: Seq<char>, i: nat) -> Option<GlobalView>
    decreases table.len() - i,
{
    if i >= table.len() {
        None
    } else if table[i as int].path == path {
        Some(table[i as int])
    } else {
        find_global_from(table, path, i + 1)
    }
}

/// The entry of the standard globals whose path is `path`.
pub open spec fn find_global(path: Seq<char>) -> Option<GlobalView> {
    find_global_from(globals_table(), path, 0)
}

/// `path` without one leading `globalThis.`.
pub open spec fn strip_global_this(path: Seq<char>) -> Seq<char> {
    if path.len() >= 11 && path.take(11) == "globalThis."@ {
        path.skip(11)
    } else {
        path
    }
}

/// The global with the given path, where a leading `globalThis.` is ignored.
pub open spec fn spec_get(path: Seq<char>) -> Option<GlobalView> {
    find_global(strip_global_this(path))
}

/// The global property `property` of the object at path `object`.
pub open spec fn spec_property(object: Seq<char>, property: Seq<char>) -> Option<GlobalView> {
    if object == "globalThis"@ {
        find_global(property)
    } else if property.contains('.') {
        spec_get(object + "."@ + property)
    } else {
        find_global(strip_global_this(object) + "."@ + property)
    }
}

/// The prototype property `property` of instances of the global `instance`.
pub open spec fn spec_prototype_property(instance: Seq<char>, property: Seq<char>) -> Option<
    GlobalView,
> {
    if property.contains('.') {
        spec_get(instance + ".prototype."@ + property)
    } else {
        find_global(strip_global_this(instance) + ".prototype."@ + property)
    }
}

fn text(s: &str) -> (r: String)
    ensures
        r@ == s@,
{
    s.to_owned()
}

fn primitives() -> (r: Vec<String>)
    ensures
        string_views(r@) == primitives_view(),
{
    let r = vec![text("string"), text("number"), text("boolean"), text("undefined"), text("null")];
    assert(string_views(r@) =~= primitives_view());
    r
}

fn rule(index: Option<usize>, safe_types: Vec<String>) -> (r: EscGlobalArgument)
    ensures
        r@ == (ArgumentView {
            index,
            safe_types: string_views(safe_types@),
            errors: seq![unknown_view()],
        }),
{
    let errors = vec![EscErrorType::unknown()];
    let r = EscGlobalArgument { index, safe_types, errors };
    assert(views(r.errors@) =~= seq![unknown_view()]);
    r
}

fn format_arguments() -> (r: Vec<EscGlobalArgument>)
    ensures
        argument_views(r@) == format_arguments_view(),
{
    let r = vec![rule(None, primitives())];
    assert(argument_views(r@) =~= format_arguments_view());
    r
}

fn message_arguments() -> (r: Vec<EscGlobalArgument>)
    ensures
        argument_views(r@) == message_arguments_view(),
{
    let r = vec![rule(Some(0), primitives()), rule(Some(1), primitives())];
    assert(argument_views(r@) =~= message_arguments_view());
    r
}

fn aggregate_arguments() -> (r: Vec<EscGlobalArgument>)
    ensures
        argument_views(r@) == aggregate_arguments_view(),
{
    let safe = vec![text("Array"), text("string")];
    assert(string_views(safe@) =~= seq!["Array"@, "string"@]);
    let r = vec![rule(Some(0), safe), rule(Some(1), primitives()), rule(Some(2), primitives())];
    assert(argument_views(r@) =~= aggregate_arguments_view());
    r
}

fn suppressed_arguments() -> (r: Vec<EscGlobalArgument>)
    ensures
        argument_views(r@) == suppressed_arguments_view(),
{
    let r = vec![rule(Some(2), primitives())];
    assert(argument_views(r@) =~= suppressed_arguments_view());
    r
}

fn no_errors() -> (r: Vec<EscErrorType>)
    ensures
        views(r@) == Seq::<ErrorTypeView>::empty(),
{
    let r: Vec<EscErrorType> = Vec::new();
    assert(views(r@) =~= Seq::<ErrorTypeView>::empty());
    r
}

fn one_error(name: &str) -> (r: Vec<EscErrorType>)
    ensures
        views(r@) == seq![builtin_view(name@)],
{
    let r = vec![EscErrorType::builtin(name)];
    assert(views(r@) =~= seq![builtin_view(name@)]);
    r
}

fn no_arguments() -> (r: Vec<EscGlobalArgument>)
    ensures
        argument_views(r@) == Seq::<ArgumentView>::empty(),
{
    let r: Vec<EscGlobalArgument> = Vec::new();
    assert(argument_views(r@) =~= Seq::<ArgumentView>::empty());
    r
}

fn object(path: &str) -> (r: EscGlobal)
    ensures
        r@ == object_view(path@),
{
    let r = EscGlobal {
        path: text(path),
        value_type: text("object"),
        read_errors: Vec::new(),
        call: None,
        construct: None,
        instance_type: None,
    };
    assert(views(r.read_errors@) =~= seq![]);
    r
}

fn function(path: &str, return_type: &str, errors: Vec<EscErrorType>, arguments: Vec<EscGlobalArgument>) -> (r: EscGlobal)
    ensures
        r@ == function_view(path@, return_type@, views(errors@), argument_views(arguments@)),
{
    let call = EscGlobalCall {
        errors,
        returns: text(return_type),
        arguments,
        min_arguments: 0,
        missing_arguments_errors: Vec::new(),
    };
    let r = EscGlobal {
        path: text(path),
        value_type: text("Function"),
        read_errors: Vec::new(),
        call: Some(call),
        construct: None,
        instance_type: None,
    };
    assert(views(r.read_errors@) =~= seq![]);
    assert(views(r.call->0.missing_arguments_errors@) =~= seq![]);
    r
}

fn error_call(path: &str, arguments: Vec<EscGlobalArgument>, min_arguments: usize) -> (r: EscGlobalCall)
    ensures
        r@ == error_call_view(path@, argument_views(arguments@), min_arguments),
{
    let missing = vec![EscErrorType::builtin("TypeError")];
    let r = EscGlobalCall {
        errors: Vec::new(),
        returns: text(path),
        arguments,
        min_arguments,
        missing_arguments_errors: missing,
    };
    assert(views(r.errors@) =~= seq![]);
    assert(views(r.missing_arguments_errors@) =~= seq![builtin_view("TypeError"@)]);
    r
}

fn error(
    path: &str,
    call_arguments: Vec<EscGlobalArgument>,
    construct_arguments: Vec<EscGlobalArgument>,
    min_arguments: usize,
) -> (r: EscGlobal)
    requires
        argument_views(call_arguments@) == argument_views(construct_arguments@),
    ensures
        r@ == error_view(path@, argument_views(call_arguments@), min_arguments),
{
    let r = EscGlobal {
        path: text(path),
        value_type: text("Function"),
        read_errors: Vec::new(),
        call: Some(error_call(path, call_arguments, min_arguments)),
        construct: Some(error_call(path, construct_arguments, min_arguments)),
        instance_type: Some(text(path)),
    };
    assert(views(r.read_errors@) =~= seq![]);
    r
}

/// The table of standard globals.
fn globals() -> (r: Vec<EscGlobal>)
    ensures
        global_views(r@) == globals_table(),
{
    let mut t: Vec<EscGlobal> = Vec::new();
    t.push(object("globalThis"));
    t.push(object("console"));
    t.push(function("console.log", "undefined", no_errors(), format_arguments()));
    t.push(function("console.info", "undefined", no_errors(), format_arguments()));
    t.push(function("console.warn", "undefined", no_errors(), format_arguments()));
    t.push(function("console.error", "undefined", no_errors(), format_arguments()));
    t.push(function("console.debug", "undefined", no_errors(), format_arguments()));
    t.push(object("JSON"));
    t.push(function("JSON.parse", "unknown", one_error("SyntaxError"), format_arguments()));
    t.push(function("JSON.stringify", "string", one_error("TypeError"), format_arguments()));
    t.push(object("Math"));
    t.push(function("Math.abs", "number", no_errors(), format_arguments()));
    t.push(function("Math.floor", "number", no_errors(), format_arguments()));
    t.push(function("Math.ceil", "number", no_errors(), format_arguments()));
    t.push(function("Math.random", "number", no_errors(), no_arguments()));
    t.push(function("parseInt", "number", no_errors(), format_arguments()));
    t.push(function("parseFloat", "number", no_errors(), format_arguments()));
    t.push(function("encodeURIComponent", "string", one_error("URIError"), format_arguments()));
    t.push(function("decodeURIComponent", "string", one_error("URIError"), format_arguments()));
    t.push(error("Error", message_arguments(), message_arguments(), 0));
    t.push(error("EvalError", message_arguments(), message_arguments(), 0));
    t.push(error("RangeError", message_arguments(), message_arguments(), 0));
    t.push(error("ReferenceError", message_arguments(), message_arguments(), 0));
    t.push(error("SyntaxError", message_arguments(), message_arguments(), 0));
    t.push(error("TypeError", message_arguments(), message_arguments(), 0));
    t.push(error("URIError", message_arguments(), message_arguments(), 0));
    t.push(error("AggregateError", aggregate_arguments(), aggregate_arguments(), 1));
    t.push(error("SuppressedError", suppressed_arguments(), suppressed_arguments(), 0));
    assert(global_views(t@) =~= globals_table());
    t
}

fn chars_eq(a: &Vec<char>, b: &Vec<char>) -> (r: bool)
    ensures
        r == (a@ == b@),
{
    if a.len() != b.len() {
        return false;
    }
    let mut i: usize = 0;
    while i < a.len()
        invariant
            a@.len() == b@.len(),
            0 <= i <= a@.len(),
            forall|j: int| 0 <= j < i ==> a@[j] == b@[j],
        decreases a@.len() - i,
    {
        if a[i] != b[i] {
            return false;
        }
        i = i + 1;
    }
    assert(a@ =~= b@);
    true
}

fn has_char(a: &Vec<char>, c: char) -> (r: bool)
    ensures
        r == a@.contains(c),
{
    let mut i: usize = 0;
    while i < a.len()
        invariant
            0 <= i <= a@.len(),
            forall|j: int| 0 <= j < i ==> a@[j] != c,
        decreases a@.len() - i,
    {
        if a[i] == c {
            return true;
        }
        i = i + 1;
    }
    false
}

fn concat(a: &Vec<char>, b: &Vec<char>) -> (r: Vec<char>)
    ensures
        r@ == a@ + b@,
{
    let mut r: Vec<char> = Vec::new();
    let mut i: usize = 0;
    while i < a.len()
        invariant
            0 <= i <= a@.len(),
            r@ == a@.take(i as int),
        decreases a@.len() - i,
    {
        r.push(a[i]);
        i = i + 1;
        assert(r@ =~= a@.take(i as int));
    }
    let mut j: usize = 0;
    while j < b.len()
        invariant
            0 <= j <= b@.len(),
            i == a@.len(),
            r@ == a@ + b@.take(j as int),
        decreases b@.len() - j,
    {
        r.push(b[j]);
        j = j + 1;
        assert(r@ =~= a@ + b@.take(j as int));
    }
    assert(b@.take(b@.len() as int) =~= b@);
    r
}

fn strip_prefix_global_this(path: &Vec<char>) -> (r: Vec<char>)
    ensures
        r@ == strip_global_this(path@),
{
    let prefix = chars_of("globalThis.");
    if path.len() >= 11 {
        let mut head: Vec<char> = Vec::new();
        let mut tail: Vec<char> = Vec::new();
        let mut i: usize = 0;
        while i < path.len()
            invariant
                path@.len() >= 11,
                0 <= i <= path@.len(),
                i <= 11 ==> head@ == path@.take(i as int) && tail@ == Seq::<char>::empty(),
                i > 11 ==> head@ == path@.take(11) && tail@ == path@.subrange(11, i as int),
            decreases path@.len() - i,
        {
            if i < 11 {
                head.push(path[i]);
            } else {
                tail.push(path[i]);
            }
            i = i + 1;
            assert(i <= 11 ==> head@ =~= path@.take(i as int));
            assert(i > 11 ==> tail@ =~= path@.subrange(11, i as int));
        }
        if chars_eq(&head, &prefix) {
            assert(tail@ =~= path@.skip(11));
            return tail;
        }
    }
    let mut r: Vec<char> = Vec::new();
    let mut i: usize = 0;
    while i < path.len()
        invariant
            0 <= i <= path@.len(),
            r@ == path@.take(i as int),
        decreases path@.len() - i,
    {
        r.push(path[i]);
        i = i + 1;
        assert(r@ =~= path@.take(i as int));
    }
    assert(path@.take(path@.len() as int) =~= path@);
    r
}

/// The standard global whose path is `key`.
fn find(key: &Vec<char>) -> (r: Option<EscGlobal>)
    ensures
        global_view(r) == find_global(key@),
{
    let mut table = globals();
    let mut i: usize = 0;
    while i < table.len()
        invariant
            global_views(table@) == globals_table(),
            0 <= i <= table@.len(),
            find_global(key@) == find_global_from(globals_table(), key@, i as nat),
        decreases table@.len() - i,
    {
        let path = chars_of(table[i].path.as_str());
        if chars_eq(&path, key) {
            proof {
                assert(global_views(table@)[i as int] == table@[i as int]@);
            }
            let entry = table.remove(i);
            return Some(entry);
        }
        proof {
            assert(global_views(table@)[i as int] == table@[i as int]@);
        }
        i = i + 1;
    }
    None
}

/// The global at table position `i` is the one found for its path when no
/// earlier entry has that path.
proof fn lemma_find_first_from(t: Seq<GlobalView>, path: Seq<char>, k: nat, i: int)
    requires
        k <= i < t.len(),
        t[i].path == path,
        forall|j: int| k <= j < i ==> #[trigger] t[j].path != path,
    ensures
        find_global_from(t, path, k) == Some(t[i]),
    decreases i - k,
{
    if k < i {
        lemma_find_first_from(t, path, k + 1, i);
    }
}


/// Calling `console.log` throws nothing.
pub proof fn law_call_errors_console_log()
    ensures
        spec_get("console.log"@) is Some,
        spec_get("console.log"@)->0.call is Some,
        spec_get("console.log"@)->0.call->0.errors == Seq::<ErrorTypeView>::empty(),
        spec_get("console.log"@)->0.construct is None,
        spec_get("console.log"@)->0.call->0.returns == "undefined"@,
        spec_get("console.log"@)->0.value_type == "Function"@,
{
    reveal_strlit("globalThis");
    reveal_strlit("console");
    reveal_strlit("console.log");
    reveal_strlit("console.info");
    reveal_strlit("console.warn");
    reveal_strlit("console.error");
    reveal_strlit("console.debug");
    reveal_strlit("JSON");
    reveal_strlit("JSON.parse");
    reveal_strlit("JSON.stringify");
    reveal_strlit("Math");
    reveal_strlit("Math.abs");
    reveal_strlit("Math.floor");
    reveal_strlit("Math.ceil");
    reveal_strlit("Math.random");
    reveal_strlit("parseInt");
    reveal_strlit("parseFloat");
    reveal_strlit("encodeURIComponent");
    reveal_strlit("decodeURIComponent");
    reveal_strlit("Error");
    reveal_strlit("EvalError");
    reveal_strlit("RangeError");
    reveal_strlit("ReferenceError");
    reveal_strlit("SyntaxError");
    reveal_strlit("TypeError");
    reveal_strlit("URIError");
    reveal_strlit("AggregateError");
    reveal_strlit("SuppressedError");
    reveal_strlit("console.log");
    assert(globals_table()[2].path == "console.log"@);
    assert(globals_table()[0].path.len() != 11);
    assert(globals_table()[1].path.len() != 11);
    assert forall|j: int| 0 <= j < 2 implies #[trigger] globals_table()[j].path != "console.log"@ by {
        if j == 0 {
            assert(globals_table()[0].path.len() != 11);
        } else if j == 1 {
            assert(globals_table()[1].path.len() != 11);
        }
    }
    lemma_find_first_from(globals_table(), "console.log"@, 0, 2);
    reveal_strlit("globalThis.");
    assert("console.log"@.take(11)[0] == "console.log"@[0]);
    assert("console.log"@.take(11) != "globalThis."@);
    assert(strip_global_this("console.log"@) == "console.log"@);
}

/// Calling `console.info` throws nothing.
pub proof fn law_call_errors_console_info()
    ensures
        spec_get("console.info"@) is Some,
        spec_get("console.info"@)->0.call is Some,
        spec_get("console.info"@)->0.call->0.errors == Seq::<ErrorTypeView>::empty(),
        spec_get("console.info"@)->0.construct is None,
        spec_get("console.info"@)->0.call->0.returns == "undefined"@,
        spec_get("console.info"@)->0.value_type == "Function"@,
{
    reveal_strlit("globalThis");
    reveal_strlit("console");
    reveal_strlit("console.log");
    reveal_strlit("console.info");
    reveal_strlit("console.warn");
    reveal_strlit("console.error");
    reveal_strlit("console.debug");
    reveal_strlit("JSON");
    reveal_strlit("JSON.parse");
    reveal_strlit("JSON.stringify");
    reveal_strlit("Math");
    reveal_strlit("Math.abs");
    reveal_strlit("Math.floor");
    reveal_strlit("Math.ceil");
    reveal_strlit("Math.random");
    reveal_strlit("parseInt");
    reveal_strlit("parseFloat");
    reveal_strlit("encodeURIComponent");
    reveal_strlit("decodeURIComponent");
    reveal_strlit("Error");
    reveal_strlit("EvalError");
    reveal_strlit("RangeError");
    reveal_strlit("ReferenceError");
    reveal_strlit("SyntaxError");
    reveal_strlit("TypeError");
    reveal_strlit("URIError");
    reveal_strlit("AggregateError");
    reveal_strlit("SuppressedError");
    reveal_strlit("console.info");
    assert(globals_table()[3].path == "console.info"@);
    assert(globals_table()[0].path.len() != 12);
    assert(globals_table()[1].path.len() != 12);
    assert(globals_table()[2].path.len() != 12);
    assert forall|j: int| 0 <= j < 3 implies #[trigger] globals_table()[j].path != "console.info"@ by {
        if j == 0 {
            assert(globals_table()[0].path.len() != 12);
        } else if j == 1 {
            assert(globals_table()[1].path.len() != 12);
        } else if j == 2 {
            assert(globals_table()[2].path.len() != 12);
        }
    }
    lemma_find_first_from(globals_table(), "console.info"@, 0, 3);
    reveal_strlit("globalThis.");
    assert("console.info"@.take(11)[0] == "console.info"@[0]);
    assert("console.info"@.take(11) != "globalThis."@);
    assert(strip_global_this("console.info"@) == "console.info"@);
}

/// Calling `console.warn` throws nothing.
pub proof fn law_call_errors_console_warn()
    ensures
        spec_get("console.warn"@) is Some,
        spec_get("console.warn"@)->0.call is Some,
        spec_get("console.warn"@)->0.call->0.errors == Seq::<ErrorTypeView>::empty(),
        spec_get("console.warn"@)->0.construct is None,
        spec_get("console.warn"@)->0.call->0.returns == "undefined"@,
        spec_get("console.warn"@)->0.value_type == "Function"@,
{
    reveal_strlit("globalThis");
    reveal_strlit("console");
    reveal_strlit("console.log");
    reveal_strlit("console.info");
    reveal_strlit("console.warn");
    reveal_strlit("console.error");
    reveal_strlit("console.debug");
    reveal_strlit("JSON");
    reveal_strlit("JSON.parse");
    reveal_strlit("JSON.stringify");
    reveal_strlit("Math");
    reveal_strlit("Math.abs");
    reveal_strlit("Math.floor");
    reveal_strlit("Math.ceil");
    reveal_strlit("Math.random");
    reveal_strlit("parseInt");
    reveal_strlit("parseFloat");
    reveal_strlit("encodeURIComponent");
    reveal_strlit("decodeURIComponent");
    reveal_strlit("Error");
    reveal_strlit("EvalError");
    reveal_strlit("RangeError");
    reveal_strlit("ReferenceError");
    reveal_strlit("SyntaxError");
    reveal_strlit("TypeError");
    reveal_strlit("URIError");
    reveal_strlit("AggregateError");
    reveal_strlit("SuppressedError");
    reveal_strlit("console.warn");
    assert(globals_table()[4].path == "console.warn"@);
    assert(globals_table()[0].path.len() != 12);
    assert(globals_table()[1].path.len() != 12);
    assert(globals_table()[2].path.len() != 12);
    assert(globals_table()[3].path[8] != 'w');
    assert forall|j: int| 0 <= j < 4 implies #[trigger] globals_table()[j].path != "console.warn"@ by {
        if j == 0 {
            assert(globals_table()[0].path.len() != 12);
        } else if j == 1 {
            assert(globals_table()[1].path.len() != 12);
        } else if j == 2 {
            assert(globals_table()[2].path.len() != 12);
        } else if j == 3 {
            assert(globals_table()[3].path[8] != 'w');
        }
    }
    lemma_find_first_from(globals_table(), "console.warn"@, 0, 4);
    reveal_strlit("globalThis.");
    assert("console.warn"@.take(11)[0] == "console.warn"@[0]);
    assert("console.warn"@.take(11) != "globalThis."@);
    assert(strip_global_this("console.warn"@) == "console.warn"@);
}

/// Calling `console.error` throws nothing.
pub proof fn law_call_errors_console_error()
    ensures
        spec_get("console.error"@) is Some,
        spec_get("console.error"@)->0.call is Some,
        spec_get("console.error"@)->0.call->0.errors == Seq::<ErrorTypeView>::empty(),
        spec_get("console.error"@)->0.construct is None,
        spec_get("console.error"@)->0.call->0.returns == "undefined"@,
        spec_get("console.error"@)->0.value_type == "Function"@,
{
    reveal_strlit("globalThis");
    reveal_strlit("console");
    reveal_strlit("console.log");
    reveal_strlit("console.info");
    reveal_strlit("console.warn");
    reveal_strlit("console.error");
    reveal_strlit("console.debug");
    reveal_strlit("JSON");
    reveal_strlit("JSON.parse");
    reveal_strlit("JSON.stringify");
    reveal_strlit("Math");
    reveal_strlit("Math.abs");
    reveal_strlit("Math.floor");
    reveal_strlit("Math.ceil");
    reveal_strlit("Math.random");
    reveal_strlit("parseInt");
    reveal_strlit("parseFloat");
    reveal_strlit("encodeURIComponent");
    reveal_strlit("decodeURIComponent");
    reveal_strlit("Error");
    reveal_strlit("EvalError");
    reveal_strlit("RangeError");
    reveal_strlit("ReferenceError");
    reveal_strlit("SyntaxError");
    reveal_strlit("TypeError");
    reveal_strlit("URIError");
    reveal_strlit("AggregateError");
    reveal_strlit("SuppressedError");
    reveal_strlit("console.error");
    assert(globals_table()[5].path == "console.error"@);
    assert(globals_table()[0].path.len() != 13);
    assert(globals_table()[1].path.len() != 13);
    assert(globals_table()[2].path.len() != 13);
    assert(globals_table()[3].path.len() != 13);
    assert(globals_table()[4].path.len() != 13);
    assert forall|j: int| 0 <= j < 5 implies #[trigger] globals_table()[j].path != "console.error"@ by {
        if j == 0 {
            assert(globals_table()[0].path.len() != 13);
        } else if j == 1 {
            assert(globals_table()[1].path.len() != 13);
        } else if j == 2 {
            assert(globals_table()[2].path.len() != 13);
        } else if j == 3 {
            assert(globals_table()[3].path.len() != 13);
        } else if j == 4 {
            assert(globals_table()[4].path.len() != 13);
        }
    }
    lemma_find_first_from(globals_table(), "console.error"@, 0, 5);
    reveal_strlit("globalThis.");
    assert("console.error"@.take(11)[0] == "console.error"@[0]);
    assert("console.error"@.take(11) != "globalThis."@);
    assert(strip_global_this("console.error"@) == "console.error"@);
}

/// Calling `console.debug` throws nothing.
pub proof fn law_call_errors_console_debug()
    ensures
        spec_get("console.debug"@) is Some,
        spec_get("console.debug"@)->0.call is Some,
        spec_get("console.debug"@)->0.call->0.errors == Seq::<ErrorTypeView>::empty(),
        spec_get("console.debug"@)->0.construct is None,
        spec_get("console.debug"@)->0.call->0.returns == "undefined"@,
        spec_get("console.debug"@)->0.value_type == "Function"@,
{
    reveal_strlit("globalThis");
    reveal_strlit("console");
    reveal_strlit("console.log");
    reveal_strlit("console.info");
    reveal_strlit("console.warn");
    reveal_strlit("console.error");
    reveal_strlit("console.debug");
    reveal_strlit("JSON");
    reveal_strlit("JSON.parse");
    reveal_strlit("JSON.stringify");
    reveal_strlit("Math");
    reveal_strlit("Math.abs");
    reveal_strlit("Math.floor");
    reveal_strlit("Math.ceil");
    reveal_strlit("Math.random");
    reveal_strlit("parseInt");
    reveal_strlit("parseFloat");
    reveal_strlit("encodeURIComponent");
    reveal_strlit("decodeURIComponent");
    reveal_strlit("Error");
    reveal_strlit("EvalError");
    reveal_strlit("RangeError");
    reveal_strlit("ReferenceError");
    reveal_strlit("SyntaxError");
    reveal_strlit("TypeError");
    reveal_strlit("URIError");
    reveal_strlit("AggregateError");
    reveal_strlit("SuppressedError");
    reveal_strlit("console.debug");
    assert(globals_table()[6].path == "console.debug"@);
    assert(globals_table()[0].path.len() != 13);
    assert(globals_table()[1].path.len() != 13);
    assert(globals_table()[2].path.len() != 13);
    assert(globals_table()[3].path.len() != 13);
    assert(globals_table()[4].path.len() != 13);
    assert(globals_table()[5].path[8] != 'd');
    assert forall|j: int| 0 <= j < 6 implies #[trigger] globals_table()[j].path != "console.debug"@ by {
        if j == 0 {
            assert(globals_table()[0].path.len() != 13);
        } else if j == 1 {
            assert(globals_table()[1].path.len() != 13);
        } else if j == 2 {
            assert(globals_table()[2].path.len() != 13);
        } else if j == 3 {
            assert(globals_table()[3].path.len() != 13);
        } else if j == 4 {
            assert(globals_table()[4].path.len() != 13);
        } else if j == 5 {
            assert(globals_table()[5].path[8] != 'd');
        }
    }
    lemma_find_first_from(globals_table(), "console.debug"@, 0, 6);
    reveal_strlit("globalThis.");
    assert("console.debug"@.take(11)[0] == "console.debug"@[0]);
    assert("console.debug"@.take(11) != "globalThis."@);
    assert(strip_global_this("console.debug"@) == "console.debug"@);
}

/// Calling `JSON.parse` may throw SyntaxError.
pub proof fn law_call_errors_json_parse()
    ensures
        spec_get("JSON.parse"@) is Some,
        spec_get("JSON.parse"@)->0.call is Some,
        spec_get("JSON.parse"@)->0.call->0.errors == seq![builtin_view("SyntaxError"@)],
        spec_get("JSON.parse"@)->0.construct is None,
        spec_get("JSON.parse"@)->0.call->0.returns == "unknown"@,
        spec_get("JSON.parse"@)->0.value_type == "Function"@,
{
    reveal_strlit("globalThis");
    reveal_strlit("console");
    reveal_strlit("console.log");
    reveal_strlit("console.info");
    reveal_strlit("console.warn");
    reveal_strlit("console.error");
    reveal_strlit("console.debug");
    reveal_strlit("JSON");
    reveal_strlit("JSON.parse");
    reveal_strlit("JSON.stringify");
    reveal_strlit("Math");
    reveal_strlit("Math.abs");
    reveal_strlit("Math.floor");
    reveal_strlit("Math.ceil");
    reveal_strlit("Math.random");
    reveal_strlit("parseInt");
    reveal_strlit("parseFloat");
    reveal_strlit("encodeURIComponent");
    reveal_strlit("decodeURIComponent");
    reveal_strlit("Error");
    reveal_strlit("EvalError");
    reveal_strlit("RangeError");
    reveal_strlit("ReferenceError");
    reveal_strlit("SyntaxError");
    reveal_strlit("TypeError");
    reveal_strlit("URIError");
    reveal_strlit("AggregateError");
    reveal_strlit("SuppressedError");
    reveal_strlit("JSON.parse");
    assert(globals_table()[8].path == "JSON.parse"@);
    assert(globals_table()[0].path[0] != 'J');
    assert(globals_table()[1].path.len() != 10);
    assert(globals_table()[2].path.len() != 10);
    assert(globals_table()[3].path.len() != 10);
    assert(globals_table()[4].path.len() != 10);
    assert(globals_table()[5].path.len() != 10);
    assert(globals_table()[6].path.len() != 10);
    assert(globals_table()[7].path.len() != 10);
    assert forall|j: int| 0 <= j < 8 implies #[trigger] globals_table()[j].path != "JSON.parse"@ by {
        if j == 0 {
            assert(globals_table()[0].path[0] != 'J');
        } else if j == 1 {
            assert(globals_table()[1].path.len() != 10);
        } else if j == 2 {
            assert(globals_table()[2].path.len() != 10);
        } else if j == 3 {
            assert(globals_table()[3].path.len() != 10);
        } else if j == 4 {
            assert(globals_table()[4].path.len() != 10);
        } else if j == 5 {
            assert(globals_table()[5].path.len() != 10);
        } else if j == 6 {
            assert(globals_table()[6].path.len() != 10);
        } else if j == 7 {
            assert(globals_table()[7].path.len() != 10);
        }
    }
    lemma_find_first_from(globals_table(), "JSON.parse"@, 0, 8);
    assert(strip_global_this("JSON.parse"@) == "JSON.parse"@);
    reveal_strlit("SyntaxError");
}

/// Calling `JSON.stringify` may throw TypeError.
pub proof fn law_call_errors_json_stringify()
    ensures
        spec_get("JSON.stringify"@) is Some,
        spec_get("JSON.stringify"@)->0.call is Some,
        spec_get("JSON.stringify"@)->0.call->0.errors == seq![builtin_view("TypeError"@)],
        spec_get("JSON.stringify"@)->0.construct is None,
        spec_get("JSON.stringify"@)->0.call->0.returns == "string"@,
        spec_get("JSON.stringify"@)->0.value_type == "Function"@,
{
    reveal_strlit("globalThis");
    reveal_strlit("console");
    reveal_strlit("console.log");
    reveal_strlit("console.info");
    reveal_strlit("console.warn");
    reveal_strlit("console.error");
    reveal_strlit("console.debug");
    reveal_strlit("JSON");
    reveal_strlit("JSON.parse");
    reveal_strlit("JSON.stringify");
    reveal_strlit("Math");
    reveal_strlit("Math.abs");
    reveal_strlit("Math.floor");
    reveal_strlit("Math.ceil");
    reveal_strlit("Math.random");
    reveal_strlit("parseInt");
    reveal_strlit("parseFloat");
    reveal_strlit("encodeURIComponent");
    reveal_strlit("decodeURIComponent");
    reveal_strlit("Error");
    reveal_strlit("EvalError");
    reveal_strlit("RangeError");
    reveal_strlit("ReferenceError");
    reveal_strlit("SyntaxError");
    reveal_strlit("TypeError");
    reveal_strlit("URIError");
    reveal_strlit("AggregateError");
    reveal_strlit("SuppressedError");
    reveal_strlit("JSON.stringify");
    assert(globals_table()[9].path == "JSON.stringify"@);
    assert(globals_table()[0].path.len() != 14);
    assert(globals_table()[1].path.len() != 14);
    assert(globals_table()[2].path.len() != 14);
    assert(globals_table()[3].path.len() != 14);
    assert(globals_table()[4].path.len() != 14);
    assert(globals_table()[5].path.len() != 14);
    assert(globals_table()[6].path.len() != 14);
    assert(globals_table()[7].path.len() != 14);
    assert(globals_table()[8].path.len() != 14);
    assert forall|j: int| 0 <= j < 9 implies #[trigger] globals_table()[j].path != "JSON.stringify"@ by {
        if j == 0 {
            assert(globals_table()[0].path.len() != 14);
        } else if j == 1 {
            assert(globals_table()[1].path.len() != 14);
        } else if j == 2 {
            assert(globals_table()[2].path.len() != 14);
        } else if j == 3 {
            assert(globals_table()[3].path.len() != 14);
        } else if j == 4 {
            assert(globals_table()[4].path.len() != 14);
        } else if j == 5 {
            assert(globals_table()[5].path.len() != 14);
        } else if j == 6 {
            assert(globals_table()[6].path.len() != 14);
        } else if j == 7 {
            assert(globals_table()[7].path.len() != 14);
        } else if j == 8 {
            assert(globals_table()[8].path.len() != 14);
        }
    }
    lemma_find_first_from(globals_table(), "JSON.stringify"@, 0, 9);
    reveal_strlit("globalThis.");
    assert("JSON.stringify"@.take(11)[0] == "JSON.stringify"@[0]);
    assert("JSON.stringify"@.take(11) != "globalThis."@);
    assert(strip_global_this("JSON.stringify"@) == "JSON.stringify"@);
    reveal_strlit("TypeError");
}

/// Calling `Math.abs` throws nothing.
pub proof fn law_call_errors_math_abs()
    ensures
        spec_get("Math.abs"@) is Some,
        spec_get("Math.abs"@)->0.call is Some,
        spec_get("Math.abs"@)->0.call->0.errors == Seq::<ErrorTypeView>::empty(),
        spec_get("Math.abs"@)->0.construct is None,
        spec_get("Math.abs"@)->0.call->0.returns == "number"@,
        spec_get("Math.abs"@)->0.value_type == "Function"@,
{
    reveal_strlit("globalThis");
    reveal_strlit("console");
    reveal_strlit("console.log");
    reveal_strlit("console.info");
    reveal_strlit("console.warn");
    reveal_strlit("console.error");
    reveal_strlit("console.debug");
    reveal_strlit("JSON");
    reveal_strlit("JSON.parse");
    reveal_strlit("JSON.stringify");
    reveal_strlit("Math");
    reveal_strlit("Math.abs");
    reveal_strlit("Math.floor");
    reveal_strlit("Math.ceil");
    reveal_strlit("Math.random");
    reveal_strlit("parseInt");
    reveal_strlit("parseFloat");
    reveal_strlit("encodeURIComponent");
    reveal_strlit("decodeURIComponent");
    reveal_strlit("Error");
    reveal_strlit("EvalError");
    reveal_strlit("RangeError");
    reveal_strlit("ReferenceError");
    reveal_strlit("SyntaxError");
    reveal_strlit("TypeError");
    reveal_strlit("URIError");
    reveal_strlit("AggregateError");
    reveal_strlit("SuppressedError");
    reveal_strlit("Math.abs");
    assert(globals_table()[11].path == "Math.abs"@);
    assert(globals_table()[0].path.len() != 8);
    assert(globals_table()[1].path.len() != 8);
    assert(globals_table()[2].path.len() != 8);
    assert(globals_table()[3].path.len() != 8);
    assert(globals_table()[4].path.len() != 8);
    assert(globals_table()[5].path.len() != 8);
    assert(globals_table()[6].path.len() != 8);
    assert(globals_table()[7].path.len() != 8);
    assert(globals_table()[8].path.len() != 8);
    assert(globals_table()[9].path.len() != 8);
    assert(globals_table()[10].path.len() != 8);
    assert forall|j: int| 0 <= j < 11 implies #[trigger] globals_table()[j].path != "Math.abs"@ by {
        if j == 0 {
            assert(globals_table()[0].path.len() != 8);
        } else if j == 1 {
            assert(globals_table()[1].path.len() != 8);
        } else if j == 2 {
            assert(globals_table()[2].path.len() != 8);
        } else if j == 3 {
            assert(globals_table()[3].path.len() != 8);
        } else if j == 4 {
            assert(globals_table()[4].path.len() != 8);
        } else if j == 5 {
            assert(globals_table()[5].path.len() != 8);
        } else if j == 6 {
            assert(globals_table()[6].path.len() != 8);
        } else if j == 7 {
            assert(globals_table()[7].path.len() != 8);
        } else if j == 8 {
            assert(globals_table()[8].path.len() != 8);
        } else if j == 9 {
            assert(globals_table()[9].path.len() != 8);
        } else if j == 10 {
            assert(globals_table()[10].path.len() != 8);
        }
    }
    lemma_find_first_from(globals_table(), "Math.abs"@, 0, 11);
    assert(strip_global_this("Math.abs"@) == "Math.abs"@);
}

/// Calling `Math.floor` throws nothing.
pub proof fn law_call_errors_math_floor()
    ensures
        spec_get("Math.floor"@) is Some,
        spec_get("Math.floor"@)->0.call is Some,
        spec_get("Math.floor"@)->0.call->0.errors == Seq::<ErrorTypeView>::empty(),
        spec_get("Math.floor"@)->0.construct is None,
        spec_get("Math.floor"@)->0.call->0.returns == "number"@,
        spec_get("Math.floor"@)->0.value_type == "Function"@,
{
    reveal_strlit("globalThis");
    reveal_strlit("console");
    reveal_strlit("console.log");
    reveal_strlit("console.info");
    reveal_strlit("console.warn");
    reveal_strlit("console.error");
    reveal_strlit("console.debug");
    reveal_strlit("JSON");
    reveal_strlit("JSON.parse");
    reveal_strlit("JSON.stringify");
    reveal_strlit("Math");
    reveal_strlit("Math.abs");
    reveal_strlit("Math.floor");
    reveal_strlit("Math.ceil");
    reveal_strlit("Math.random");
    reveal_strlit("parseInt");
    reveal_strlit("parseFloat");
    reveal_strlit("encodeURIComponent");
    reveal_strlit("decodeURIComponent");
    reveal_strlit("Error");
    reveal_strlit("EvalError");
    reveal_strlit("RangeError");
    reveal_strlit("ReferenceError");
    reveal_strlit("SyntaxError");
    reveal_strlit("TypeError");
    reveal_strlit("URIError");
    reveal_strlit("AggregateError");
    reveal_strlit("SuppressedError");
    reveal_strlit("Math.floor");
    assert(globals_table()[12].path == "Math.floor"@);
    assert(globals_table()[0].path[0] != 'M');
    assert(globals_table()[1].path.len() != 10);
    assert(globals_table()[2].path.len() != 10);
    assert(globals_table()[3].path.len() != 10);
    assert(globals_table()[4].path.len() != 10);
    assert(globals_table()[5].path.len() != 10);
    assert(globals_table()[6].path.len() != 10);
    assert(globals_table()[7].path.len() != 10);
    assert(globals_table()[8].path[0] != 'M');
    assert(globals_table()[9].path.len() != 10);
    assert(globals_table()[10].path.len() != 10);
    assert(globals_table()[11].path.len() != 10);
    assert forall|j: int| 0 <= j < 12 implies #[trigger] globals_table()[j].path != "Math.floor"@ by {
        if j == 0 {
            assert(globals_table()[0].path[0] != 'M');
        } else if j == 1 {
            assert(globals_table()[1].path.len() != 10);
        } else if j == 2 {
            assert(globals_table()[2].path.len() != 10);
        } else if j == 3 {
            assert(globals_table()[3].path.len() != 10);
        } else if j == 4 {
            assert(globals_table()[4].path.len() != 10);
        } else if j == 5 {
            assert(globals_table()[5].path.len() != 10);
        } else if j == 6 {
            assert(globals_table()[6].path.len() != 10);
        } else if j == 7 {
            assert(globals_table()[7].path.len() != 10);
        } else if j == 8 {
            assert(globals_table()[8].path[0] != 'M');
        } else if j == 9 {
            assert(globals_table()[9].path.len() != 10);
        } else if j == 10 {
            assert(globals_table()[10].path.len() != 10);
        } else if j == 11 {
            assert(globals_table()[11].path.len() != 10);
        }
    }
    lemma_find_first_from(globals_table(), "Math.floor"@, 0, 12);
    assert(strip_global_this("Math.floor"@) == "Math.floor"@);
}

/// Calling `Math.ceil` throws nothing.
pub proof fn law_call_errors_math_ceil()
    ensures
        spec_get("Math.ceil"@) is Some,
        spec_get("Math.ceil"@)->0.call is Some,
        spec_get("Math.ceil"@)->0.call->0.errors == Seq::<ErrorTypeView>::empty(),
        spec_get("Math.ceil"@)->0.construct is None,
        spec_get("Math.ceil"@)->0.call->0.returns == "number"@,
        spec_get("Math.ceil"@)->0.value_type == "Function"@,
{
    reveal_strlit("globalThis");
    reveal_strlit("console");
    reveal_strlit("console.log");
    reveal_strlit("console.info");
    reveal_strlit("console.warn");
    reveal_strlit("console.error");
    reveal_strlit("console.debug");
    reveal_strlit("JSON");
    reveal_strlit("JSON.parse");
    reveal_strlit("JSON.stringify");
    reveal_strlit("Math");
    reveal_strlit("Math.abs");
    reveal_strlit("Math.floor");
    reveal_strlit("Math.ceil");
    reveal_strlit("Math.random");
    reveal_strlit("parseInt");
    reveal_strlit("parseFloat");
    reveal_strlit("encodeURIComponent");
    reveal_strlit("decodeURIComponent");
    reveal_strlit("Error");
    reveal_strlit("EvalError");
    reveal_strlit("RangeError");
    reveal_strlit("ReferenceError");
    reveal_strlit("SyntaxError");
    reveal_strlit("TypeError");
    reveal_strlit("URIError");
    reveal_strlit("AggregateError");
    reveal_strlit("SuppressedError");
    reveal_strlit("Math.ceil");
    assert(globals_table()[13].path == "Math.ceil"@);
    assert(globals_table()[0].path.len() != 9);
    assert(globals_table()[1].path.len() != 9);
    assert(globals_table()[2].path.len() != 9);
    assert(globals_table()[3].path.len() != 9);
    assert(globals_table()[4].path.len() != 9);
    assert(globals_table()[5].path.len() != 9);
    assert(globals_table()[6].path.len() != 9);
    assert(globals_table()[7].path.len() != 9);
    assert(globals_table()[8].path.len() != 9);
    assert(globals_table()[9].path.len() != 9);
    assert(globals_table()[10].path.len() != 9);
    assert(globals_table()[11].path.len() != 9);
    assert(globals_table()[12].path.len() != 9);
    assert forall|j: int| 0 <= j < 13 implies #[trigger] globals_table()[j].path != "Math.ceil"@ by {
        if j == 0 {
            assert(globals_table()[0].path.len() != 9);
        } else if j == 1 {
            assert(globals_table()[1].path.len() != 9);
        } else if j == 2 {
            assert(globals_table()[2].path.len() != 9);
        } else if j == 3 {
            assert(globals_table()[3].path.len() != 9);
        } else if j == 4 {
            assert(globals_table()[4].path.len() != 9);
        } else if j == 5 {
            assert(globals_table()[5].path.len() != 9);
        } else if j == 6 {
            assert(globals_table()[6].path.len() != 9);
        } else if j == 7 {
            assert(globals_table()[7].path.len() != 9);
        } else if j == 8 {
            assert(globals_table()[8].path.len() != 9);
        } else if j == 9 {
            assert(globals_table()[9].path.len() != 9);
        } else if j == 10 {
            assert(globals_table()[10].path.len() != 9);
        } else if j == 11 {
            assert(globals_table()[11].path.len() != 9);
        } else if j == 12 {
            assert(globals_table()[12].path.len() != 9);
        }
    }
    lemma_find_first_from(globals_table(), "Math.ceil"@, 0, 13);
    assert(strip_global_this("Math.ceil"@) == "Math.ceil"@);
}

/// Calling `Math.random` throws nothing.
pub proof fn law_call_errors_math_random()
    ensures
        spec_get("Math.random"@) is Some,
        spec_get("Math.random"@)->0.call is Some,
        spec_get("Math.random"@)->0.call->0.errors == Seq::<ErrorTypeView>::empty(),
        spec_get("Math.random"@)->0.construct is None,
        spec_get("Math.random"@)->0.call->0.returns == "number"@,
        spec_get("Math.random"@)->0.value_type == "Function"@,
{
    reveal_strlit("globalThis");
    reveal_strlit("console");
    reveal_strlit("console.log");
    reveal_strlit("console.info");
    reveal_strlit("console.warn");
    reveal_strlit("console.error");
    reveal_strlit("console.debug");
    reveal_strlit("JSON");
    reveal_strlit("JSON.parse");
    reveal_strlit("JSON.stringify");
    reveal_strlit("Math");
    reveal_strlit("Math.abs");
    reveal_strlit("Math.floor");
    reveal_strlit("Math.ceil");
    reveal_strlit("Math.random");
    reveal_strlit("parseInt");
    reveal_strlit("parseFloat");
    reveal_strlit("encodeURIComponent");
    reveal_strlit("decodeURIComponent");
    reveal_strlit("Error");
    reveal_strlit("EvalError");
    reveal_strlit("RangeError");
    reveal_strlit("ReferenceError");
    reveal_strlit("SyntaxError");
    reveal_strlit("TypeError");
    reveal_strlit("URIError");
    reveal_strlit("AggregateError");
    reveal_strlit("SuppressedError");
    reveal_strlit("Math.random");
    assert(globals_table()[14].path == "Math.random"@);
    assert(globals_table()[0].path.len() != 11);
    assert(globals_table()[1].path.len() != 11);
    assert(globals_table()[2].path[0] != 'M');
    assert(globals_table()[3].path.len() != 11);
    assert(globals_table()[4].path.len() != 11);
    assert(globals_table()[5].path.len() != 11);
    assert(globals_table()[6].path.len() != 11);
    assert(globals_table()[7].path.len() != 11);
    assert(globals_table()[8].path.len() != 11);
    assert(globals_table()[9].path.len() != 11);
    assert(globals_table()[10].path.len() != 11);
    assert(globals_table()[11].path.len() != 11);
    assert(globals_table()[12].path.len() != 11);
    assert(globals_table()[13].path.len() != 11);
    assert forall|j: int| 0 <= j < 14 implies #[trigger] globals_table()[j].path != "Math.random"@ by {
        if j == 0 {
            assert(globals_table()[0].path.len() != 11);
        } else if j == 1 {
            assert(globals_table()[1].path.len() != 11);
        } else if j == 2 {
            assert(globals_table()[2].path[0] != 'M');
        } else if j == 3 {
            assert(globals_table()[3].path.len() != 11);
        } else if j == 4 {
            assert(globals_table()[4].path.len() != 11);
        } else if j == 5 {
            assert(globals_table()[5].path.len() != 11);
        } else if j == 6 {
            assert(globals_table()[6].path.len() != 11);
        } else if j == 7 {
            assert(globals_table()[7].path.len() != 11);
        } else if j == 8 {
            assert(globals_table()[8].path.len() != 11);
        } else if j == 9 {
            assert(globals_table()[9].path.len() != 11);
        } else if j == 10 {
            assert(globals_table()[10].path.len() != 11);
        } else if j == 11 {
            assert(globals_table()[11].path.len() != 11);
        } else if j == 12 {
            assert(globals_table()[12].path.len() != 11);
        } else if j == 13 {
            assert(globals_table()[13].path.len() != 11);
        }
    }
    lemma_find_first_from(globals_table(), "Math.random"@, 0, 14);
    reveal_strlit("globalThis.");
    assert("Math.random"@.take(11)[0] == "Math.random"@[0]);
    assert("Math.random"@.take(11) != "globalThis."@);
    assert(strip_global_this("Math.random"@) == "Math.random"@);
}

/// Calling `parseInt` throws nothing.
pub proof fn law_call_errors_parseint()
    ensures
        spec_get("parseInt"@) is Some,
        spec_get("parseInt"@)->0.call is Some,
        spec_get("parseInt"@)->0.call->0.errors == Seq::<ErrorTypeView>::empty(),
        spec_get("parseInt"@)->0.construct is None,
        spec_get("parseInt"@)->0.call->0.returns == "number"@,
        spec_get("parseInt"@)->0.value_type == "Function"@,
{
    reveal_strlit("globalThis");
    reveal_strlit("console");
    reveal_strlit("console.log");
    reveal_strlit("console.info");
    reveal_strlit("console.warn");
    reveal_strlit("console.error");
    reveal_strlit("console.debug");
    reveal_strlit("JSON");
    reveal_strlit("JSON.parse");
    reveal_strlit("JSON.stringify");
    reveal_strlit("Math");
    reveal_strlit("Math.abs");
    reveal_strlit("Math.floor");
    reveal_strlit("Math.ceil");
    reveal_strlit("Math.random");
    reveal_strlit("parseInt");
    reveal_strlit("parseFloat");
    reveal_strlit("encodeURIComponent");
    reveal_strlit("decodeURIComponent");
    reveal_strlit("Error");
    reveal_strlit("EvalError");
    reveal_strlit("RangeError");
    reveal_strlit("ReferenceError");
    reveal_strlit("SyntaxError");
    reveal_strlit("TypeError");
    reveal_strlit("URIError");
    reveal_strlit("AggregateError");
    reveal_strlit("SuppressedError");
    reveal_strlit("parseInt");
    assert(globals_table()[15].path == "parseInt"@);
    assert(globals_table()[0].path.len() != 8);
    assert(globals_table()[1].path.len() != 8);
    assert(globals_table()[2].path.len() != 8);
    assert(globals_table()[3].path.len() != 8);
    assert(globals_table()[4].path.len() != 8);
    assert(globals_table()[5].path.len() != 8);
    assert(globals_table()[6].path.len() != 8);
    assert(globals_table()[7].path.len() != 8);
    assert(globals_table()[8].path.len() != 8);
    assert(globals_table()[9].path.len() != 8);
    assert(globals_table()[10].path.len() != 8);
    assert(globals_table()[11].path[0] != 'p');
    assert(globals_table()[12].path.len() != 8);
    assert(globals_table()[13].path.len() != 8);
    assert(globals_table()[14].path.len() != 8);
    assert forall|j: int| 0 <= j < 15 implies #[trigger] globals_table()[j].path != "parseInt"@ by {
        if j == 0 {
            assert(globals_table()[0].path.len() != 8);
        } else if j == 1 {
            assert(globals_table()[1].path.len() != 8);
        } else if j == 2 {
            assert(globals_table()[2].path.len() != 8);
        } else if j == 3 {
            assert(globals_table()[3].path.len() != 8);
        } else if j == 4 {
            assert(globals_table()[4].path.len() != 8);
        } else if j == 5 {
            assert(globals_table()[5].path.len() != 8);
        } else if j == 6 {
            assert(globals_table()[6].path.len() != 8);
        } else if j == 7 {
            assert(globals_table()[7].path.len() != 8);
        } else if j == 8 {
            assert(globals_table()[8].path.len() != 8);
        } else if j == 9 {
            assert(globals_table()[9].path.len() != 8);
        } else if j == 10 {
            assert(globals_table()[10].path.len() != 8);
        } else if j == 11 {
            assert(globals_table()[11].path[0] != 'p');
        } else if j == 12 {
            assert(globals_table()[12].path.len() != 8);
        } else if j == 13 {
            assert(globals_table()[13].path.len() != 8);
        } else if j == 14 {
            assert(globals_table()[14].path.len() != 8);
        }
    }
    lemma_find_first_from(globals_table(), "parseInt"@, 0, 15);
    assert(strip_global_this("parseInt"@) == "parseInt"@);
}

/// Calling `parseFloat` throws nothing.
pub proof fn law_call_errors_parsefloat()
    ensures
        spec_get("parseFloat"@) is Some,
        spec_get("parseFloat"@)->0.call is Some,
        spec_get("parseFloat"@)->0.call->0.errors == Seq::<ErrorTypeView>::empty(),
        spec_get("parseFloat"@)->0.construct is None,
        spec_get("parseFloat"@)->0.call->0.returns == "number"@,
        spec_get("parseFloat"@)->0.value_type == "Function"@,
{
    reveal_strlit("globalThis");
    reveal_strlit("console");
    reveal_strlit("console.log");
    reveal_strlit("console.info");
    reveal_strlit("console.warn");
    reveal_strlit("console.error");
    reveal_strlit("console.debug");
    reveal_strlit("JSON");
    reveal_strlit("JSON.parse");
    reveal_strlit("JSON.stringify");
    reveal_strlit("Math");
    reveal_strlit("Math.abs");
    reveal_strlit("Math.floor");
    reveal_strlit("Math.ceil");
    reveal_strlit("Math.random");
    reveal_strlit("parseInt");
    reveal_strlit("parseFloat");
    reveal_strlit("encodeURIComponent");
    reveal_strlit("decodeURIComponent");
    reveal_strlit("Error");
    reveal_strlit("EvalError");
    reveal_strlit("RangeError");
    reveal_strlit("ReferenceError");
    reveal_strlit("SyntaxError");
    reveal_strlit("TypeError");
    reveal_strlit("URIError");
    reveal_strlit("AggregateError");
    reveal_strlit("SuppressedError");
    reveal_strlit("parseFloat");
    assert(globals_table()[16].path == "parseFloat"@);
    assert(globals_table()[0].path[0] != 'p');
    assert(globals_table()[1].path.len() != 10);
    assert(globals_table()[2].path.len() != 10);
    assert(globals_table()[3].path.len() != 10);
    assert(globals_table()[4].path.len() != 10);
    assert(globals_table()[5].path.len() != 10);
    assert(globals_table()[6].path.len() != 10);
    assert(globals_table()[7].path.len() != 10);
    assert(globals_table()[8].path[0] != 'p');
    assert(globals_table()[9].path.len() != 10);
    assert(globals_table()[10].path.len() != 10);
    assert(globals_table()[11].path.len() != 10);
    assert(globals_table()[12].path[0] != 'p');
    assert(globals_table()[13].path.len() != 10);
    assert(globals_table()[14].path.len() != 10);
    assert(globals_table()[15].path.len() != 10);
    assert forall|j: int| 0 <= j < 16 implies #[trigger] globals_table()[j].path != "parseFloat"@ by {
        if j == 0 {
            assert(globals_table()[0].path[0] != 'p');
        } else if j == 1 {
            assert(globals_table()[1].path.len() != 10);
        } else if j == 2 {
            assert(globals_table()[2].path.len() != 10);
        } else if j == 3 {
            assert(globals_table()[3].path.len() != 10);
        } else if j == 4 {
            assert(globals_table()[4].path.len() != 10);
        } else if j == 5 {
            assert(globals_table()[5].path.len() != 10);
        } else if j == 6 {
            assert(globals_table()[6].path.len() != 10);
        } else if j == 7 {
            assert(globals_table()[7].path.len() != 10);
        } else if j == 8 {
            assert(globals_table()[8].path[0] != 'p');
        } else if j == 9 {
            assert(globals_table()[9].path.len() != 10);
        } else if j == 10 {
            assert(globals_table()[10].path.len() != 10);
        } else if j == 11 {
            assert(globals_table()[11].path.len() != 10);
        } else if j == 12 {
            assert(globals_table()[12].path[0] != 'p');
        } else if j == 13 {
            assert(globals_table()[13].path.len() != 10);
        } else if j == 14 {
            assert(globals_table()[14].path.len() != 10);
        } else if j == 15 {
            assert(globals_table()[15].path.len() != 10);
        }
    }
    lemma_find_first_from(globals_table(), "parseFloat"@, 0, 16);
    assert(strip_global_this("parseFloat"@) == "parseFloat"@);
}

/// Calling `encodeURIComponent` may throw URIError.
pub proof fn law_call_errors_encodeuricomponent()
    ensures
        spec_get("encodeURIComponent"@) is Some,
        spec_get("encodeURIComponent"@)->0.call is Some,
        spec_get("encodeURIComponent"@)->0.call->0.errors == seq![builtin_view("URIError"@)],
        spec_get("encodeURIComponent"@)->0.construct is None,
        spec_get("encodeURIComponent"@)->0.call->0.returns == "string"@,
        spec_get("encodeURIComponent"@)->0.value_type == "Function"@,
{
    reveal_strlit("globalThis");
    reveal_strlit("console");
    reveal_strlit("console.log");
    reveal_strlit("console.info");
    reveal_strlit("console.warn");
    reveal_strlit("console.error");
    reveal_strlit("console.debug");
    reveal_strlit("JSON");
    reveal_strlit("JSON.parse");
    reveal_strlit("JSON.stringify");
    reveal_strlit("Math");
    reveal_strlit("Math.abs");
    reveal_strlit("Math.floor");
    reveal_strlit("Math.ceil");
    reveal_strlit("Math.random");
    reveal_strlit("parseInt");
    reveal_strlit("parseFloat");
    reveal_strlit("encodeURIComponent");
    reveal_strlit("decodeURIComponent");
    reveal_strlit("Error");
    reveal_strlit("EvalError");
    reveal_strlit("RangeError");
    reveal_strlit("ReferenceError");
    reveal_strlit("SyntaxError");
    reveal_strlit("TypeError");
    reveal_strlit("URIError");
    reveal_strlit("AggregateError");
    reveal_strlit("SuppressedError");
    reveal_strlit("encodeURIComponent");
    assert(globals_table()[17].path == "encodeURIComponent"@);
    assert(globals_table()[0].path.len() != 18);
    assert(globals_table()[1].path.len() != 18);
    assert(globals_table()[2].path.len() != 18);
    assert(globals_table()[3].path.len() != 18);
    assert(globals_table()[4].path.len() != 18);
    assert(globals_table()[5].path.len() != 18);
    assert(globals_table()[6].path.len() != 18);
    assert(globals_table()[7].path.len() != 18);
    assert(globals_table()[8].path.len() != 18);
    assert(globals_table()[9].path.len() != 18);
    assert(globals_table()[10].path.len() != 18);
    assert(globals_table()[11].path.len() != 18);
    assert(globals_table()[12].path.len() != 18);
    assert(globals_table()[13].path.len() != 18);
    assert(globals_table()[14].path.len() != 18);
    assert(globals_table()[15].path.len() != 18);
    assert(globals_table()[16].path.len() != 18);
    assert forall|j: int| 0 <= j < 17 implies #[trigger] globals_table()[j].path != "encodeURIComponent"@ by {
        if j == 0 {
            assert(globals_table()[0].path.len() != 18);
        } else if j == 1 {
            assert(globals_table()[1].path.len() != 18);
        } else if j == 2 {
            assert(globals_table()[2].path.len() != 18);
        } else if j == 3 {
            assert(globals_table()[3].path.len() != 18);
        } else if j == 4 {
            assert(globals_table()[4].path.len() != 18);
        } else if j == 5 {
            assert(globals_table()[5].path.len() != 18);
        } else if j == 6 {
            assert(globals_table()[6].path.len() != 18);
        } else if j == 7 {
            assert(globals_table()[7].path.len() != 18);
        } else if j == 8 {
            assert(globals_table()[8].path.len() != 18);
        } else if j == 9 {
            assert(globals_table()[9].path.len() != 18);
        } else if j == 10 {
            assert(globals_table()[10].path.len() != 18);
        } else if j == 11 {
            assert(globals_table()[11].path.len() != 18);
        } else if j == 12 {
            assert(globals_table()[12].path.len() != 18);
        } else if j == 13 {
            assert(globals_table()[13].path.len() != 18);
        } else if j == 14 {
            assert(globals_table()[14].path.len() != 18);
        } else if j == 15 {
            assert(globals_table()[15].path.len() != 18);
        } else if j == 16 {
            assert(globals_table()[16].path.len() != 18);
        }
    }
    lemma_find_first_from(globals_table(), "encodeURIComponent"@, 0, 17);
    reveal_strlit("globalThis.");
    assert("encodeURIComponent"@.take(11)[0] == "encodeURIComponent"@[0]);
    assert("encodeURIComponent"@.take(11) != "globalThis."@);
    assert(strip_global_this("encodeURIComponent"@) == "encodeURIComponent"@);
    reveal_strlit("URIError");
}

/// Calling `decodeURIComponent` may throw URIError.
pub proof fn law_call_errors_decodeuricomponent()
    ensures
        spec_get("decodeURIComponent"@) is Some,
        spec_get("decodeURIComponent"@)->0.call is Some,
        spec_get("decodeURIComponent"@)->0.call->0.errors == seq![builtin_view("URIError"@)],
        spec_get("decodeURIComponent"@)->0.construct is None,
        spec_get("decodeURIComponent"@)->0.call->0.returns == "string"@,
        spec_get("decodeURIComponent"@)->0.value_type == "Function"@,
{
    reveal_strlit("globalThis");
    reveal_strlit("console");
    reveal_strlit("console.log");
    reveal_strlit("console.info");
    reveal_strlit("console.warn");
    reveal_strlit("console.error");
    reveal_strlit("console.debug");
    reveal_strlit("JSON");
    reveal_strlit("JSON.parse");
    reveal_strlit("JSON.stringify");
    reveal_strlit("Math");
    reveal_strlit("Math.abs");
    reveal_strlit("Math.floor");
    reveal_strlit("Math.ceil");
    reveal_strlit("Math.random");
    reveal_strlit("parseInt");
    reveal_strlit("parseFloat");
    reveal_strlit("encodeURIComponent");
    reveal_strlit("decodeURIComponent");
    reveal_strlit("Error");
    reveal_strlit("EvalError");
    reveal_strlit("RangeError");
    reveal_strlit("ReferenceError");
    reveal_strlit("SyntaxError");
    reveal_strlit("TypeError");
    reveal_strlit("URIError");
    reveal_strlit("AggregateError");
    reveal_strlit("SuppressedError");
    reveal_strlit("decodeURIComponent");
    assert(globals_table()[18].path == "decodeURIComponent"@);
    assert(globals_table()[0].path.len() != 18);
    assert(globals_table()[1].path.len() != 18);
    assert(globals_table()[2].path.len() != 18);
    assert(globals_table()[3].path.len() != 18);
    assert(globals_table()[4].path.len() != 18);
    assert(globals_table()[5].path.len() != 18);
    assert(globals_table()[6].path.len() != 18);
    assert(globals_table()[7].path.len() != 18);
    assert(globals_table()[8].path.len() != 18);
    assert(globals_table()[9].path.len() != 18);
    assert(globals_table()[10].path.len() != 18);
    assert(globals_table()[11].path.len() != 18);
    assert(globals_table()[12].path.len() != 18);
    assert(globals_table()[13].path.len() != 18);
    assert(globals_table()[14].path.len() != 18);
    assert(globals_table()[15].path.len() != 18);
    assert(globals_table()[16].path.len() != 18);
    assert(globals_table()[17].path[0] != 'd');
    assert forall|j: int| 0 <= j < 18 implies #[trigger] globals_table()[j].path != "decodeURIComponent"@ by {
        if j == 0 {
            assert(globals_table()[0].path.len() != 18);
        } else if j == 1 {
            assert(globals_table()[1].path.len() != 18);
        } else if j == 2 {
            assert(globals_table()[2].path.len() != 18);
        } else if j == 3 {
            assert(globals_table()[3].path.len() != 18);
        } else if j == 4 {
            assert(globals_table()[4].path.len() != 18);
        } else if j == 5 {
            assert(globals_table()[5].path.len() != 18);
        } else if j == 6 {
            assert(globals_table()[6].path.len() != 18);
        } else if j == 7 {
            assert(globals_table()[7].path.len() != 18);
        } else if j == 8 {
            assert(globals_table()[8].path.len() != 18);
        } else if j == 9 {
            assert(globals_table()[9].path.len() != 18);
        } else if j == 10 {
            assert(globals_table()[10].path.len() != 18);
        } else if j == 11 {
            assert(globals_table()[11].path.len() != 18);
        } else if j == 12 {
            assert(globals_table()[12].path.len() != 18);
        } else if j == 13 {
            assert(globals_table()[13].path.len() != 18);
        } else if j == 14 {
            assert(globals_table()[14].path.len() != 18);
        } else if j == 15 {
            assert(globals_table()[15].path.len() != 18);
        } else if j == 16 {
            assert(globals_table()[16].path.len() != 18);
        } else if j == 17 {
            assert(globals_table()[17].path[0] != 'd');
        }
    }
    lemma_find_first_from(globals_table(), "decodeURIComponent"@, 0, 18);
    reveal_strlit("globalThis.");
    assert("decodeURIComponent"@.take(11)[0] == "decodeURIComponent"@[0]);
    assert("decodeURIComponent"@.take(11) != "globalThis."@);
    assert(strip_global_this("decodeURIComponent"@) == "decodeURIComponent"@);
    reveal_strlit("URIError");
}

/// `Error` constructs an `Error` whether called or constructed, throws
/// nothing itself, and throws a TypeError when given fewer than 0 arguments.
pub proof fn law_constructor_error()
    ensures
        spec_get("Error"@) is Some,
        spec_get("Error"@)->0.instance_type == Some("Error"@),
        spec_get("Error"@)->0.call is Some,
        spec_get("Error"@)->0.construct == spec_get("Error"@)->0.call,
        spec_get("Error"@)->0.call->0.errors.len() == 0,
        spec_get("Error"@)->0.call->0.returns == "Error"@,
        spec_get("Error"@)->0.call->0.min_arguments == 0,
        spec_get("Error"@)->0.call->0.missing_arguments_errors == seq![builtin_view("TypeError"@)],
{
    reveal_strlit("globalThis");
    reveal_strlit("console");
    reveal_strlit("console.log");
    reveal_strlit("console.info");
    reveal_strlit("console.warn");
    reveal_strlit("console.error");
    reveal_strlit("console.debug");
    reveal_strlit("JSON");
    reveal_strlit("JSON.parse");
    reveal_strlit("JSON.stringify");
    reveal_strlit("Math");
    reveal_strlit("Math.abs");
    reveal_strlit("Math.floor");
    reveal_strlit("Math.ceil");
    reveal_strlit("Math.random");
    reveal_strlit("parseInt");
    reveal_strlit("parseFloat");
    reveal_strlit("encodeURIComponent");
    reveal_strlit("decodeURIComponent");
    reveal_strlit("Error");
    reveal_strlit("EvalError");
    reveal_strlit("RangeError");
    reveal_strlit("ReferenceError");
    reveal_strlit("SyntaxError");
    reveal_strlit("TypeError");
    reveal_strlit("URIError");
    reveal_strlit("AggregateError");
    reveal_strlit("SuppressedError");
    reveal_strlit("Error");
    assert(globals_table()[19].path == "Error"@);
    assert(globals_table()[0].path.len() != 5);
    assert(globals_table()[1].path.len() != 5);
    assert(globals_table()[2].path.len() != 5);
    assert(globals_table()[3].path.len() != 5);
    assert(globals_table()[4].path.len() != 5);
    assert(globals_table()[5].path.len() != 5);
    assert(globals_table()[6].path.len() != 5);
    assert(globals_table()[7].path.len() != 5);
    assert(globals_table()[8].path.len() != 5);
    assert(globals_table()[9].path.len() != 5);
    assert(globals_table()[10].path.len() != 5);
    assert(globals_table()[11].path.len() != 5);
    assert(globals_table()[12].path.len() != 5);
    assert(globals_table()[13].path.len() != 5);
    assert(globals_table()[14].path.len() != 5);
    assert(globals_table()[15].path.len() != 5);
    assert(globals_table()[16].path.len() != 5);
    assert(globals_table()[17].path.len() != 5);
    assert(globals_table()[18].path.len() != 5);
    assert forall|j: int| 0 <= j < 19 implies #[trigger] globals_table()[j].path != "Error"@ by {
        if j == 0 {
            assert(globals_table()[0].path.len() != 5);
        } else if j == 1 {
            assert(globals_table()[1].path.len() != 5);
        } else if j == 2 {
            assert(globals_table()[2].path.len() != 5);
        } else if j == 3 {
            assert(globals_table()[3].path.len() != 5);
        } else if j == 4 {
            assert(globals_table()[4].path.len() != 5);
        } else if j == 5 {
            assert(globals_table()[5].path.len() != 5);
        } else if j == 6 {
            assert(globals_table()[6].path.len() != 5);
        } else if j == 7 {
            assert(globals_table()[7].path.len() != 5);
        } else if j == 8 {
            assert(globals_table()[8].path.len() != 5);
        } else if j == 9 {
            assert(globals_table()[9].path.len() != 5);
        } else if j == 10 {
            assert(globals_table()[10].path.len() != 5);
        } else if j == 11 {
            assert(globals_table()[11].path.len() != 5);
        } else if j == 12 {
            assert(globals_table()[12].path.len() != 5);
        } else if j == 13 {
            assert(globals_table()[13].path.len() != 5);
        } else if j == 14 {
            assert(globals_table()[14].path.len() != 5);
        } else if j == 15 {
            assert(globals_table()[15].path.len() != 5);
        } else if j == 16 {
            assert(globals_table()[16].path.len() != 5);
        } else if j == 17 {
            assert(globals_table()[17].path.len() != 5);
        } else if j == 18 {
            assert(globals_table()[18].path.len() != 5);
        }
    }
    lemma_find_first_from(globals_table(), "Error"@, 0, 19);
    assert(strip_global_this("Error"@) == "Error"@);
    reveal_strlit("TypeError");
}

/// `EvalError` constructs an `EvalError` whether called or constructed, throws
/// nothing itself, and throws a TypeError when given fewer than 0 arguments.
pub proof fn law_constructor_evalerror()
    ensures
        spec_get("EvalError"@) is Some,
        spec_get("EvalError"@)->0.instance_type == Some("EvalError"@),
        spec_get("EvalError"@)->0.call is Some,
        spec_get("EvalError"@)->0.construct == spec_get("EvalError"@)->0.call,
        spec_get("EvalError"@)->0.call->0.errors.len() == 0,
        spec_get("EvalError"@)->0.call->0.returns == "EvalError"@,
        spec_get("EvalError"@)->0.call->0.min_arguments == 0,
        spec_get("EvalError"@)->0.call->0.missing_arguments_errors == seq![builtin_view("TypeError"@)],
{
    reveal_strlit("globalThis");
    reveal_strlit("console");
    reveal_strlit("console.log");
    reveal_strlit("console.info");
    reveal_strlit("console.warn");
    reveal_strlit("console.error");
    reveal_strlit("console.debug");
    reveal_strlit("JSON");
    reveal_strlit("JSON.parse");
    reveal_strlit("JSON.stringify");
    reveal_strlit("Math");
    reveal_strlit("Math.abs");
    reveal_strlit("Math.floor");
    reveal_strlit("Math.ceil");
    reveal_strlit("Math.random");
    reveal_strlit("parseInt");
    reveal_strlit("parseFloat");
    reveal_strlit("encodeURIComponent");
    reveal_strlit("decodeURIComponent");
    reveal_strlit("Error");
    reveal_strlit("EvalError");
    reveal_strlit("RangeError");
    reveal_strlit("ReferenceError");
    reveal_strlit("SyntaxError");
    reveal_strlit("TypeError");
    reveal_strlit("URIError");
    reveal_strlit("AggregateError");
    reveal_strlit("SuppressedError");
    reveal_strlit("EvalError");
    assert(globals_table()[20].path == "EvalError"@);
    assert(globals_table()[0].path.len() != 9);
    assert(globals_table()[1].path.len() != 9);
    assert(globals_table()[2].path.len() != 9);
    assert(globals_table()[3].path.len() != 9);
    assert(globals_table()[4].path.len() != 9);
    assert(globals_table()[5].path.len() != 9);
    assert(globals_table()[6].path.len() != 9);
    assert(globals_table()[7].path.len() != 9);
    assert(globals_table()[8].path.len() != 9);
    assert(globals_table()[9].path.len() != 9);
    assert(globals_table()[10].path.len() != 9);
    assert(globals_table()[11].path.len() != 9);
    assert(globals_table()[12].path.len() != 9);
    assert(globals_table()[13].path[0] != 'E');
    assert(globals_table()[14].path.len() != 9);
    assert(globals_table()[15].path.len() != 9);
    assert(globals_table()[16].path.len() != 9);
    assert(globals_table()[17].path.len() != 9);
    assert(globals_table()[18].path.len() != 9);
    assert(globals_table()[19].path.len() != 9);
    assert forall|j: int| 0 <= j < 20 implies #[trigger] globals_table()[j].path != "EvalError"@ by {
        if j == 0 {
            assert(globals_table()[0].path.len() != 9);
        } else if j == 1 {
            assert(globals_table()[1].path.len() != 9);
        } else if j == 2 {
            assert(globals_table()[2].path.len() != 9);
        } else if j == 3 {
            assert(globals_table()[3].path.len() != 9);
        } else if j == 4 {
            assert(globals_table()[4].path.len() != 9);
        } else if j == 5 {
            assert(globals_table()[5].path.len() != 9);
        } else if j == 6 {
            assert(globals_table()[6].path.len() != 9);
        } else if j == 7 {
            assert(globals_table()[7].path.len() != 9);
        } else if j == 8 {
            assert(globals_table()[8].path.len() != 9);
        } else if j == 9 {
            assert(globals_table()[9].path.len() != 9);
        } else if j == 10 {
            assert(globals_table()[10].path.len() != 9);
        } else if j == 11 {
            assert(globals_table()[11].path.len() != 9);
        } else if j == 12 {
            assert(globals_table()[12].path.len() != 9);
        } else if j == 13 {
            assert(globals_table()[13].path[0] != 'E');
        } else if j == 14 {
            assert(globals_table()[14].path.len() != 9);
        } else if j == 15 {
            assert(globals_table()[15].path.len() != 9);
        } else if j == 16 {
            assert(globals_table()[16].path.len() != 9);
        } else if j == 17 {
            assert(globals_table()[17].path.len() != 9);
        } else if j == 18 {
            assert(globals_table()[18].path.len() != 9);
        } else if j == 19 {
            assert(globals_table()[19].path.len() != 9);
        }
    }
    lemma_find_first_from(globals_table(), "EvalError"@, 0, 20);
    assert(strip_global_this("EvalError"@) == "EvalError"@);
    reveal_strlit("TypeError");
}

/// `RangeError` constructs an `RangeError` whether called or constructed, throws
/// nothing itself, and throws a TypeError when given fewer than 0 arguments.
pub proof fn law_constructor_rangeerror()
    ensures
        spec_get("RangeError"@) is Some,
        spec_get("RangeError"@)->0.instance_type == Some("RangeError"@),
        spec_get("RangeError"@)->0.call is Some,
        spec_get("RangeError"@)->0.construct == spec_get("RangeError"@)->0.call,
        spec_get("RangeError"@)->0.call->0.errors.len() == 0,
        spec_get("RangeError"@)->0.call->0.returns == "RangeError"@,
        spec_get("RangeError"@)->0.call->0.min_arguments == 0,
        spec_get("RangeError"@)->0.call->0.missing_arguments_errors == seq![builtin_view("TypeError"@)],
{
    reveal_strlit("globalThis");
    reveal_strlit("console");
    reveal_strlit("console.log");
    reveal_strlit("console.info");
    reveal_strlit("console.warn");
    reveal_strlit("console.error");
    reveal_strlit("console.debug");
    reveal_strlit("JSON");
    reveal_strlit("JSON.parse");
    reveal_strlit("JSON.stringify");
    reveal_strlit("Math");
    reveal_strlit("Math.abs");
    reveal_strlit("Math.floor");
    reveal_strlit("Math.ceil");
    reveal_strlit("Math.random");
    reveal_strlit("parseInt");
    reveal_strlit("parseFloat");
    reveal_strlit("encodeURIComponent");
    reveal_strlit("decodeURIComponent");
    reveal_strlit("Error");
    reveal_strlit("EvalError");
    reveal_strlit("RangeError");
    reveal_strlit("ReferenceError");
    reveal_strlit("SyntaxError");
    reveal_strlit("TypeError");
    reveal_strlit("URIError");
    reveal_strlit("AggregateError");
    reveal_strlit("SuppressedError");
    reveal_strlit("RangeError");
    assert(globals_table()[21].path == "RangeError"@);
    assert(globals_table()[0].path[0] != 'R');
    assert(globals_table()[1].path.len() != 10);
    assert(globals_table()[2].path.len() != 10);
    assert(globals_table()[3].path.len() != 10);
    assert(globals_table()[4].path.len() != 10);
    assert(globals_table()[5].path.len() != 10);
    assert(globals_table()[6].path.len() != 10);
    assert(globals_table()[7].path.len() != 10);
    assert(globals_table()[8].path[0] != 'R');
    assert(globals_table()[9].path.len() != 10);
    assert(globals_table()[10].path.len() != 10);
    assert(globals_table()[11].path.len() != 10);
    assert(globals_table()[12].path[0] != 'R');
    assert(globals_table()[13].path.len() != 10);
    assert(globals_table()[14].path.len() != 10);
    assert(globals_table()[15].path.len() != 10);
    assert(globals_table()[16].path[0] != 'R');
    assert(globals_table()[17].path.len() != 10);
    assert(globals_table()[18].path.len() != 10);
    assert(globals_table()[19].path.len() != 10);
    assert(globals_table()[20].path.len() != 10);
    assert forall|j: int| 0 <= j < 21 implies #[trigger] globals_table()[j].path != "RangeError"@ by {
        if j == 0 {
            assert(globals_table()[0].path[0] != 'R');
        } else if j == 1 {
            assert(globals_table()[1].path.len() != 10);
        } else if j == 2 {
            assert(globals_table()[2].path.len() != 10);
        } else if j == 3 {
            assert(globals_table()[3].path.len() != 10);
        } else if j == 4 {
            assert(globals_table()[4].path.len() != 10);
        } else if j == 5 {
            assert(globals_table()[5].path.len() != 10);
        } else if j == 6 {
            assert(globals_table()[6].path.len() != 10);
        } else if j == 7 {
            assert(globals_table()[7].path.len() != 10);
        } else if j == 8 {
            assert(globals_table()[8].path[0] != 'R');
        } else if j == 9 {
            assert(globals_table()[9].path.len() != 10);
        } else if j == 10 {
            assert(globals_table()[10].path.len() != 10);
        } else if j == 11 {
            assert(globals_table()[11].path.len() != 10);
        } else if j == 12 {
            assert(globals_table()[12].path[0] != 'R');
        } else if j == 13 {
            assert(globals_table()[13].path.len() != 10);
        } else if j == 14 {
            assert(globals_table()[14].path.len() != 10);
        } else if j == 15 {
            assert(globals_table()[15].path.len() != 10);
        } else if j == 16 {
            assert(globals_table()[16].path[0] != 'R');
        } else if j == 17 {
            assert(globals_table()[17].path.len() != 10);
        } else if j == 18 {
            assert(globals_table()[18].path.len() != 10);
        } else if j == 19 {
            assert(globals_table()[19].path.len() != 10);
        } else if j == 20 {
            assert(globals_table()[20].path.len() != 10);
        }
    }
    lemma_find_first_from(globals_table(), "RangeError"@, 0, 21);
    assert(strip_global_this("RangeError"@) == "RangeError"@);
    reveal_strlit("TypeError");
}

/// `ReferenceError` constructs an `ReferenceError` whether called or constructed, throws
/// nothing itself, and throws a TypeError when given fewer than 0 arguments.
pub proof fn law_constructor_referenceerror()
    ensures
        spec_get("ReferenceError"@) is Some,
        spec_get("ReferenceError"@)->0.instance_type == Some("ReferenceError"@),
        spec_get("ReferenceError"@)->0.call is Some,
        spec_get("ReferenceError"@)->0.construct == spec_get("ReferenceError"@)->0.call,
        spec_get("ReferenceError"@)->0.call->0.errors.len() == 0,
        spec_get("ReferenceError"@)->0.call->0.returns == "ReferenceError"@,
        spec_get("ReferenceError"@)->0.call->0.min_arguments == 0,
        spec_get("ReferenceError"@)->0.call->0.missing_arguments_errors == seq![builtin_view("TypeError"@)],
{
    reveal_strlit("globalThis");
    reveal_strlit("console");
    reveal_strlit("console.log");
    reveal_strlit("console.info");
    reveal_strlit("console.warn");
    reveal_strlit("console.error");
    reveal_strlit("console.debug");
    reveal_strlit("JSON");
    reveal_strlit("JSON.parse");
    reveal_strlit("JSON.stringify");
    reveal_strlit("Math");
    reveal_strlit("Math.abs");
    reveal_strlit("Math.floor");
    reveal_strlit("Math.ceil");
    reveal_strlit("Math.random");
    reveal_strlit("parseInt");
    reveal_strlit("parseFloat");
    reveal_strlit("encodeURIComponent");
    reveal_strlit("decodeURIComponent");
    reveal_strlit("Error");
    reveal_strlit("EvalError");
    reveal_strlit("RangeError");
    reveal_strlit("ReferenceError");
    reveal_strlit("SyntaxError");
    reveal_strlit("TypeError");
    reveal_strlit("URIError");
    reveal_strlit("AggregateError");
    reveal_strlit("SuppressedError");
    reveal_strlit("ReferenceError");
    assert(globals_table()[22].path == "ReferenceError"@);
    assert(globals_table()[0].path.len() != 14);
    assert(globals_table()[1].path.len() != 14);
    assert(globals_table()[2].path.len() != 14);
    assert(globals_table()[3].path.len() != 14);
    assert(globals_table()[4].path.len() != 14);
    assert(globals_table()[5].path.len() != 14);
    assert(globals_table()[6].path.len() != 14);
    assert(globals_table()[7].path.len() != 14);
    assert(globals_table()[8].path.len() != 14);
    assert(globals_table()[9].path[0] != 'R');
    assert(globals_table()[10].path.len() != 14);
    assert(globals_table()[11].path.len() != 14);
    assert(globals_table()[12].path.len() != 14);
    assert(globals_table()[13].path.len() != 14);
    assert(globals_table()[14].path.len() != 14);
    assert(globals_table()[15].path.len() != 14);
    assert(globals_table()[16].path.len() != 14);
    assert(globals_table()[17].path.len() != 14);
    assert(globals_table()[18].path.len() != 14);
    assert(globals_table()[19].path.len() != 14);
    assert(globals_table()[20].path.len() != 14);
    assert(globals_table()[21].path.len() != 14);
    assert forall|j: int| 0 <= j < 22 implies #[trigger] globals_table()[j].path != "ReferenceError"@ by {
        if j == 0 {
            assert(globals_table()[0].path.len() != 14);
        } else if j == 1 {
            assert(globals_table()[1].path.len() != 14);
        } else if j == 2 {
            assert(globals_table()[2].path.len() != 14);
        } else if j == 3 {
            assert(globals_table()[3].path.len() != 14);
        } else if j == 4 {
            assert(globals_table()[4].path.len() != 14);
        } else if j == 5 {
            assert(globals_table()[5].path.len() != 14);
        } else if j == 6 {
            assert(globals_table()[6].path.len() != 14);
        } else if j == 7 {
            assert(globals_table()[7].path.len() != 14);
        } else if j == 8 {
            assert(globals_table()[8].path.len() != 14);
        } else if j == 9 {
            assert(globals_table()[9].path[0] != 'R');
        } else if j == 10 {
            assert(globals_table()[10].path.len() != 14);
        } else if j == 11 {
            assert(globals_table()[11].path.len() != 14);
        } else if j == 12 {
            assert(globals_table()[12].path.len() != 14);
        } else if j == 13 {
            assert(globals_table()[13].path.len() != 14);
        } else if j == 14 {
            assert(globals_table()[14].path.len() != 14);
        } else if j == 15 {
            assert(globals_table()[15].path.len() != 14);
        } else if j == 16 {
            assert(globals_table()[16].path.len() != 14);
        } else if j == 17 {
            assert(globals_table()[17].path.len() != 14);
        } else if j == 18 {
            assert(globals_table()[18].path.len() != 14);
        } else if j == 19 {
            assert(globals_table()[19].path.len() != 14);
        } else if j == 20 {
            assert(globals_table()[20].path.len() != 14);
        } else if j == 21 {
            assert(globals_table()[21].path.len() != 14);
        }
    }
    lemma_find_first_from(globals_table(), "ReferenceError"@, 0, 22);
    reveal_strlit("globalThis.");
    assert("ReferenceError"@.take(11)[0] == "ReferenceError"@[0]);
    assert("ReferenceError"@.take(11) != "globalThis."@);
    assert(strip_global_this("ReferenceError"@) == "ReferenceError"@);
    reveal_strlit("TypeError");
}

/// `SyntaxError` constructs an `SyntaxError` whether called or constructed, throws
/// nothing itself, and throws a TypeError when given fewer than 0 arguments.
pub proof fn law_constructor_syntaxerror()
    ensures
        spec_get("SyntaxError"@) is Some,
        spec_get("SyntaxError"@)->0.instance_type == Some("SyntaxError"@),
        spec_get("SyntaxError"@)->0.call is Some,
        spec_get("SyntaxError"@)->0.construct == spec_get("SyntaxError"@)->0.call,
        spec_get("SyntaxError"@)->0.call->0.errors.len() == 0,
        spec_get("SyntaxError"@)->0.call->0.returns == "SyntaxError"@,
        spec_get("SyntaxError"@)->0.call->0.min_arguments == 0,
        spec_get("SyntaxError"@)->0.call->0.missing_arguments_errors == seq![builtin_view("TypeError"@)],
{
    reveal_strlit("globalThis");
    reveal_strlit("console");
    reveal_strlit("console.log");
    reveal_strlit("console.info");
    reveal_strlit("console.warn");
    reveal_strlit("console.error");
    reveal_strlit("console.debug");
    reveal_strlit("JSON");
    reveal_strlit("JSON.parse");
    reveal_strlit("JSON.stringify");
    reveal_strlit("Math");
    reveal_strlit("Math.abs");
    reveal_strlit("Math.floor");
    reveal_strlit("Math.ceil");
    reveal_strlit("Math.random");
    reveal_strlit("parseInt");
    reveal_strlit("parseFloat");
    reveal_strlit("encodeURIComponent");
    reveal_strlit("decodeURIComponent");
    reveal_strlit("Error");
    reveal_strlit("EvalError");
    reveal_strlit("RangeError");
    reveal_strlit("ReferenceError");
    reveal_strlit("SyntaxError");
    reveal_strlit("TypeError");
    reveal_strlit("URIError");
    reveal_strlit("AggregateError");
    reveal_strlit("SuppressedError");
    reveal_strlit("SyntaxError");
    assert(globals_table()[23].path == "SyntaxError"@);
    assert(globals_table()[0].path.len() != 11);
    assert(globals_table()[1].path.len() != 11);
    assert(globals_table()[2].path[0] != 'S');
    assert(globals_table()[3].path.len() != 11);
    assert(globals_table()[4].path.len() != 11);
    assert(globals_table()[5].path.len() != 11);
    assert(globals_table()[6].path.len() != 11);
    assert(globals_table()[7].path.len() != 11);
    assert(globals_table()[8].path.len() != 11);
    assert(globals_table()[9].path.len() != 11);
    assert(globals_table()[10].path.len() != 11);
    assert(globals_table()[11].path.len() != 11);
    assert(globals_table()[12].path.len() != 11);
    assert(globals_table()[13].path.len() != 11);
    assert(globals_table()[14].path[0] != 'S');
    assert(globals_table()[15].path.len() != 11);
    assert(globals_table()[16].path.len() != 11);
    assert(globals_table()[17].path.len() != 11);
    assert(globals_table()[18].path.len() != 11);
    assert(globals_table()[19].path.len() != 11);
    assert(globals_table()[20].path.len() != 11);
    assert(globals_table()[21].path.len() != 11);
    assert(globals_table()[22].path.len() != 11);
    assert forall|j: int| 0 <= j < 23 implies #[trigger] globals_table()[j].path != "SyntaxError"@ by {
        if j == 0 {
            assert(globals_table()[0].path.len() != 11);
        } else if j == 1 {
            assert(globals_table()[1].path.len() != 11);
        } else if j == 2 {
            assert(globals_table()[2].path[0] != 'S');
        } else if j == 3 {
            assert(globals_table()[3].path.len() != 11);
        } else if j == 4 {
            assert(globals_table()[4].path.len() != 11);
        } else if j == 5 {
            assert(globals_table()[5].path.len() != 11);
        } else if j == 6 {
            assert(globals_table()[6].path.len() != 11);
        } else if j == 7 {
            assert(globals_table()[7].path.len() != 11);
        } else if j == 8 {
            assert(globals_table()[8].path.len() != 11);
        } else if j == 9 {
            assert(globals_table()[9].path.len() != 11);
        } else if j == 10 {
            assert(globals_table()[10].path.len() != 11);
        } else if j == 11 {
            assert(globals_table()[11].path.len() != 11);
        } else if j == 12 {
            assert(globals_table()[12].path.len() != 11);
        } else if j == 13 {
            assert(globals_table()[13].path.len() != 11);
        } else if j == 14 {
            assert(globals_table()[14].path[0] != 'S');
        } else if j == 15 {
            assert(globals_table()[15].path.len() != 11);
        } else if j == 16 {
            assert(globals_table()[16].path.len() != 11);
        } else if j == 17 {
            assert(globals_table()[17].path.len() != 11);
        } else if j == 18 {
            assert(globals_table()[18].path.len() != 11);
        } else if j == 19 {
            assert(globals_table()[19].path.len() != 11);
        } else if j == 20 {
            assert(globals_table()[20].path.len() != 11);
        } else if j == 21 {
            assert(globals_table()[21].path.len() != 11);
        } else if j == 22 {
            assert(globals_table()[22].path.len() != 11);
        }
    }
    lemma_find_first_from(globals_table(), "SyntaxError"@, 0, 23);
    reveal_strlit("globalThis.");
    assert("SyntaxError"@.take(11)[0] == "SyntaxError"@[0]);
    assert("SyntaxError"@.take(11) != "globalThis."@);
    assert(strip_global_this("SyntaxError"@) == "SyntaxError"@);
    reveal_strlit("TypeError");
}

/// `TypeError` constructs an `TypeError` whether called or constructed, throws
/// nothing itself, and throws a TypeError when given fewer than 0 arguments.
pub proof fn law_constructor_typeerror()
    ensures
        spec_get("TypeError"@) is Some,
        spec_get("TypeError"@)->0.instance_type == Some("TypeError"@),
        spec_get("TypeError"@)->0.call is Some,
        spec_get("TypeError"@)->0.construct == spec_get("TypeError"@)->0.call,
        spec_get("TypeError"@)->0.call->0.errors.len() == 0,
        spec_get("TypeError"@)->0.call->0.returns == "TypeError"@,
        spec_get("TypeError"@)->0.call->0.min_arguments == 0,
        spec_get("TypeError"@)->0.call->0.missing_arguments_errors == seq![builtin_view("TypeError"@)],
{
    reveal_strlit("globalThis");
    reveal_strlit("console");
    reveal_strlit("console.log");
    reveal_strlit("console.info");
    reveal_strlit("console.warn");
    reveal_strlit("console.error");
    reveal_strlit("console.debug");
    reveal_strlit("JSON");
    reveal_strlit("JSON.parse");
    reveal_strlit("JSON.stringify");
    reveal_strlit("Math");
    reveal_strlit("Math.abs");
    reveal_strlit("Math.floor");
    reveal_strlit("Math.ceil");
    reveal_strlit("Math.random");
    reveal_strlit("parseInt");
    reveal_strlit("parseFloat");
    reveal_strlit("encodeURIComponent");
    reveal_strlit("decodeURIComponent");
    reveal_strlit("Error");
    reveal_strlit("EvalError");
    reveal_strlit("RangeError");
    reveal_strlit("ReferenceError");
    reveal_strlit("SyntaxError");
    reveal_strlit("TypeError");
    reveal_strlit("URIError");
    reveal_strlit("AggregateError");
    reveal_strlit("SuppressedError");
    reveal_strlit("TypeError");
    assert(globals_table()[24].path == "TypeError"@);
    assert(globals_table()[0].path.len() != 9);
    assert(globals_table()[1].path.len() != 9);
    assert(globals_table()[2].path.len() != 9);
    assert(globals_table()[3].path.len() != 9);
    assert(globals_table()[4].path.len() != 9);
    assert(globals_table()[5].path.len() != 9);
    assert(globals_table()[6].path.len() != 9);
    assert(globals_table()[7].path.len() != 9);
    assert(globals_table()[8].path.len() != 9);
    assert(globals_table()[9].path.len() != 9);
    assert(globals_table()[10].path.len() != 9);
    assert(globals_table()[11].path.len() != 9);
    assert(globals_table()[12].path.len() != 9);
    assert(globals_table()[13].path[0] != 'T');
    assert(globals_table()[14].path.len() != 9);
    assert(globals_table()[15].path.len() != 9);
    assert(globals_table()[16].path.len() != 9);
    assert(globals_table()[17].path.len() != 9);
    assert(globals_table()[18].path.len() != 9);
    assert(globals_table()[19].path.len() != 9);
    assert(globals_table()[20].path[0] != 'T');
    assert(globals_table()[21].path.len() != 9);
    assert(globals_table()[22].path.len() != 9);
    assert(globals_table()[23].path.len() != 9);
    assert forall|j: int| 0 <= j < 24 implies #[trigger] globals_table()[j].path != "TypeError"@ by {
        if j == 0 {
            assert(globals_table()[0].path.len() != 9);
        } else if j == 1 {
            assert(globals_table()[1].path.len() != 9);
        } else if j == 2 {
            assert(globals_table()[2].path.len() != 9);
        } else if j == 3 {
            assert(globals_table()[3].path.len() != 9);
        } else if j == 4 {
            assert(globals_table()[4].path.len() != 9);
        } else if j == 5 {
            assert(globals_table()[5].path.len() != 9);
        } else if j == 6 {
            assert(globals_table()[6].path.len() != 9);
        } else if j == 7 {
            assert(globals_table()[7].path.len() != 9);
        } else if j == 8 {
            assert(globals_table()[8].path.len() != 9);
        } else if j == 9 {
            assert(globals_table()[9].path.len() != 9);
        } else if j == 10 {
            assert(globals_table()[10].path.len() != 9);
        } else if j == 11 {
            assert(globals_table()[11].path.len() != 9);
        } else if j == 12 {
            assert(globals_table()[12].path.len() != 9);
        } else if j == 13 {
            assert(globals_table()[13].path[0] != 'T');
        } else if j == 14 {
            assert(globals_table()[14].path.len() != 9);
        } else if j == 15 {
            assert(globals_table()[15].path.len() != 9);
        } else if j == 16 {
            assert(globals_table()[16].path.len() != 9);
        } else if j == 17 {
            assert(globals_table()[17].path.len() != 9);
        } else if j == 18 {
            assert(globals_table()[18].path.len() != 9);
        } else if j == 19 {
            assert(globals_table()[19].path.len() != 9);
        } else if j == 20 {
            assert(globals_table()[20].path[0] != 'T');
        } else if j == 21 {
            assert(globals_table()[21].path.len() != 9);
        } else if j == 22 {
            assert(globals_table()[22].path.len() != 9);
        } else if j == 23 {
            assert(globals_table()[23].path.len() != 9);
        }
    }
    lemma_find_first_from(globals_table(), "TypeError"@, 0, 24);
    assert(strip_global_this("TypeError"@) == "TypeError"@);
    reveal_strlit("TypeError");
}

/// `URIError` constructs an `URIError` whether called or constructed, throws
/// nothing itself, and throws a TypeError when given fewer than 0 arguments.
pub proof fn law_constructor_urierror()
    ensures
        spec_get("URIError"@) is Some,
        spec_get("URIError"@)->0.instance_type == Some("URIError"@),
        spec_get("URIError"@)->0.call is Some,
        spec_get("URIError"@)->0.construct == spec_get("URIError"@)->0.call,
        spec_get("URIError"@)->0.call->0.errors.len() == 0,
        spec_get("URIError"@)->0.call->0.returns == "URIError"@,
        spec_get("URIError"@)->0.call->0.min_arguments == 0,
        spec_get("URIError"@)->0.call->0.missing_arguments_errors == seq![builtin_view("TypeError"@)],
{
    reveal_strlit("globalThis");
    reveal_strlit("console");
    reveal_strlit("console.log");
    reveal_strlit("console.info");
    reveal_strlit("console.warn");
    reveal_strlit("console.error");
    reveal_strlit("console.debug");
    reveal_strlit("JSON");
    reveal_strlit("JSON.parse");
    reveal_strlit("JSON.stringify");
    reveal_strlit("Math");
    reveal_strlit("Math.abs");
    reveal_strlit("Math.floor");
    reveal_strlit("Math.ceil");
    reveal_strlit("Math.random");
    reveal_strlit("parseInt");
    reveal_strlit("parseFloat");
    reveal_strlit("encodeURIComponent");
    reveal_strlit("decodeURIComponent");
    reveal_strlit("Error");
    reveal_strlit("EvalError");
    reveal_strlit("RangeError");
    reveal_strlit("ReferenceError");
    reveal_strlit("SyntaxError");
    reveal_strlit("TypeError");
    reveal_strlit("URIError");
    reveal_strlit("AggregateError");
    reveal_strlit("SuppressedError");
    reveal_strlit("URIError");
    assert(globals_table()[25].path == "URIError"@);
    assert(globals_table()[0].path.len() != 8);
    assert(globals_table()[1].path.len() != 8);
    assert(globals_table()[2].path.len() != 8);
    assert(globals_table()[3].path.len() != 8);
    assert(globals_table()[4].path.len() != 8);
    assert(globals_table()[5].path.len() != 8);
    assert(globals_table()[6].path.len() != 8);
    assert(globals_table()[7].path.len() != 8);
    assert(globals_table()[8].path.len() != 8);
    assert(globals_table()[9].path.len() != 8);
    assert(globals_table()[10].path.len() != 8);
    assert(globals_table()[11].path[0] != 'U');
    assert(globals_table()[12].path.len() != 8);
    assert(globals_table()[13].path.len() != 8);
    assert(globals_table()[14].path.len() != 8);
    assert(globals_table()[15].path[0] != 'U');
    assert(globals_table()[16].path.len() != 8);
    assert(globals_table()[17].path.len() != 8);
    assert(globals_table()[18].path.len() != 8);
    assert(globals_table()[19].path.len() != 8);
    assert(globals_table()[20].path.len() != 8);
    assert(globals_table()[21].path.len() != 8);
    assert(globals_table()[22].path.len() != 8);
    assert(globals_table()[23].path.len() != 8);
    assert(globals_table()[24].path.len() != 8);
    assert forall|j: int| 0 <= j < 25 implies #[trigger] globals_table()[j].path != "URIError"@ by {
        if j == 0 {
            assert(globals_table()[0].path.len() != 8);
        } else if j == 1 {
            assert(globals_table()[1].path.len() != 8);
        } else if j == 2 {
            assert(globals_table()[2].path.len() != 8);
        } else if j == 3 {
            assert(globals_table()[3].path.len() != 8);
        } else if j == 4 {
            assert(globals_table()[4].path.len() != 8);
        } else if j == 5 {
            assert(globals_table()[5].path.len() != 8);
        } else if j == 6 {
            assert(globals_table()[6].path.len() != 8);
        } else if j == 7 {
            assert(globals_table()[7].path.len() != 8);
        } else if j == 8 {
            assert(globals_table()[8].path.len() != 8);
        } else if j == 9 {
            assert(globals_table()[9].path.len() != 8);
        } else if j == 10 {
            assert(globals_table()[10].path.len() != 8);
        } else if j == 11 {
            assert(globals_table()[11].path[0] != 'U');
        } else if j == 12 {
            assert(globals_table()[12].path.len() != 8);
        } else if j == 13 {
            assert(globals_table()[13].path.len() != 8);
        } else if j == 14 {
            assert(globals_table()[14].path.len() != 8);
        } else if j == 15 {
            assert(globals_table()[15].path[0] != 'U');
        } else if j == 16 {
            assert(globals_table()[16].path.len() != 8);
        } else if j == 17 {
            assert(globals_table()[17].path.len() != 8);
        } else if j == 18 {
            assert(globals_table()[18].path.len() != 8);
        } else if j == 19 {
            assert(globals_table()[19].path.len() != 8);
        } else if j == 20 {
            assert(globals_table()[20].path.len() != 8);
        } else if j == 21 {
            assert(globals_table()[21].path.len() != 8);
        } else if j == 22 {
            assert(globals_table()[22].path.len() != 8);
        } else if j == 23 {
            assert(globals_table()[23].path.len() != 8);
        } else if j == 24 {
            assert(globals_table()[24].path.len() != 8);
        }
    }
    lemma_find_first_from(globals_table(), "URIError"@, 0, 25);
    assert(strip_global_this("URIError"@) == "URIError"@);
    reveal_strlit("TypeError");
}

/// `AggregateError` constructs an `AggregateError` whether called or constructed, throws
/// nothing itself, and throws a TypeError when given fewer than 1 arguments.
pub proof fn law_constructor_aggregateerror()
    ensures
        spec_get("AggregateError"@) is Some,
        spec_get("AggregateError"@)->0.instance_type == Some("AggregateError"@),
        spec_get("AggregateError"@)->0.call is Some,
        spec_get("AggregateError"@)->0.construct == spec_get("AggregateError"@)->0.call,
        spec_get("AggregateError"@)->0.call->0.errors.len() == 0,
        spec_get("AggregateError"@)->0.call->0.returns == "AggregateError"@,
        spec_get("AggregateError"@)->0.call->0.min_arguments == 1,
        spec_get("AggregateError"@)->0.call->0.missing_arguments_errors == seq![builtin_view("TypeError"@)],
{
    reveal_strlit("globalThis");
    reveal_strlit("console");
    reveal_strlit("console.log");
    reveal_strlit("console.info");
    reveal_strlit("console.warn");
    reveal_strlit("console.error");
    reveal_strlit("console.debug");
    reveal_strlit("JSON");
    reveal_strlit("JSON.parse");
    reveal_strlit("JSON.stringify");
    reveal_strlit("Math");
    reveal_strlit("Math.abs");
    reveal_strlit("Math.floor");
    reveal_strlit("Math.ceil");
    reveal_strlit("Math.random");
    reveal_strlit("parseInt");
    reveal_strlit("parseFloat");
    reveal_strlit("encodeURIComponent");
    reveal_strlit("decodeURIComponent");
    reveal_strlit("Error");
    reveal_strlit("EvalError");
    reveal_strlit("RangeError");
    reveal_strlit("ReferenceError");
    reveal_strlit("SyntaxError");
    reveal_strlit("TypeError");
    reveal_strlit("URIError");
    reveal_strlit("AggregateError");
    reveal_strlit("SuppressedError");
    reveal_strlit("AggregateError");
    assert(globals_table()[26].path == "AggregateError"@);
    assert(globals_table()[0].path.len() != 14);
    assert(globals_table()[1].path.len() != 14);
    assert(globals_table()[2].path.len() != 14);
    assert(globals_table()[3].path.len() != 14);
    assert(globals_table()[4].path.len() != 14);
    assert(globals_table()[5].path.len() != 14);
    assert(globals_table()[6].path.len() != 14);
    assert(globals_table()[7].path.len() != 14);
    assert(globals_table()[8].path.len() != 14);
    assert(globals_table()[9].path[0] != 'A');
    assert(globals_table()[10].path.len() != 14);
    assert(globals_table()[11].path.len() != 14);
    assert(globals_table()[12].path.len() != 14);
    assert(globals_table()[13].path.len() != 14);
    assert(globals_table()[14].path.len() != 14);
    assert(globals_table()[15].path.len() != 14);
    assert(globals_table()[16].path.len() != 14);
    assert(globals_table()[17].path.len() != 14);
    assert(globals_table()[18].path.len() != 14);
    assert(globals_table()[19].path.len() != 14);
    assert(globals_table()[20].path.len() != 14);
    assert(globals_table()[21].path.len() != 14);
    assert(globals_table()[22].path[0] != 'A');
    assert(globals_table()[23].path.len() != 14);
    assert(globals_table()[24].path.len() != 14);
    assert(globals_table()[25].path.len() != 14);
    assert forall|j: int| 0 <= j < 26 implies #[trigger] globals_table()[j].path != "AggregateError"@ by {
        if j == 0 {
            assert(globals_table()[0].path.len() != 14);
        } else if j == 1 {
            assert(globals_table()[1].path.len() != 14);
        } else if j == 2 {
            assert(globals_table()[2].path.len() != 14);
        } else if j == 3 {
            assert(globals_table()[3].path.len() != 14);
        } else if j == 4 {
            assert(globals_table()[4].path.len() != 14);
        } else if j == 5 {
            assert(globals_table()[5].path.len() != 14);
        } else if j == 6 {
            assert(globals_table()[6].path.len() != 14);
        } else if j == 7 {
            assert(globals_table()[7].path.len() != 14);
        } else if j == 8 {
            assert(globals_table()[8].path.len() != 14);
        } else if j == 9 {
            assert(globals_table()[9].path[0] != 'A');
        } else if j == 10 {
            assert(globals_table()[10].path.len() != 14);
        } else if j == 11 {
            assert(globals_table()[11].path.len() != 14);
        } else if j == 12 {
            assert(globals_table()[12].path.len() != 14);
        } else if j == 13 {
            assert(globals_table()[13].path.len() != 14);
        } else if j == 14 {
            assert(globals_table()[14].path.len() != 14);
        } else if j == 15 {
            assert(globals_table()[15].path.len() != 14);
        } else if j == 16 {
            assert(globals_table()[16].path.len() != 14);
        } else if j == 17 {
            assert(globals_table()[17].path.len() != 14);
        } else if j == 18 {
            assert(globals_table()[18].path.len() != 14);
        } else if j == 19 {
            assert(globals_table()[19].path.len() != 14);
        } else if j == 20 {
            assert(globals_table()[20].path.len() != 14);
        } else if j == 21 {
            assert(globals_table()[21].path.len() != 14);
        } else if j == 22 {
            assert(globals_table()[22].path[0] != 'A');
        } else if j == 23 {
            assert(globals_table()[23].path.len() != 14);
        } else if j == 24 {
            assert(globals_table()[24].path.len() != 14);
        } else if j == 25 {
            assert(globals_table()[25].path.len() != 14);
        }
    }
    lemma_find_first_from(globals_table(), "AggregateError"@, 0, 26);
    reveal_strlit("globalThis.");
    assert("AggregateError"@.take(11)[0] == "AggregateError"@[0]);
    assert("AggregateError"@.take(11) != "globalThis."@);
    assert(strip_global_this("AggregateError"@) == "AggregateError"@);
    reveal_strlit("TypeError");
}

/// `SuppressedError` constructs an `SuppressedError` whether called or constructed, throws
/// nothing itself, and throws a TypeError when given fewer than 0 arguments.
pub proof fn law_constructor_suppressederror()
    ensures
        spec_get("SuppressedError"@) is Some,
        spec_get("SuppressedError"@)->0.instance_type == Some("SuppressedError"@),
        spec_get("SuppressedError"@)->0.call is Some,
        spec_get("SuppressedError"@)->0.construct == spec_get("SuppressedError"@)->0.call,
        spec_get("SuppressedError"@)->0.call->0.errors.len() == 0,
        spec_get("SuppressedError"@)->0.call->0.returns == "SuppressedError"@,
        spec_get("SuppressedError"@)->0.call->0.min_arguments == 0,
        spec_get("SuppressedError"@)->0.call->0.missing_arguments_errors == seq![builtin_view("TypeError"@)],
{
    reveal_strlit("globalThis");
    reveal_strlit("console");
    reveal_strlit("console.log");
    reveal_strlit("console.info");
    reveal_strlit("console.warn");
    reveal_strlit("console.error");
    reveal_strlit("console.debug");
    reveal_strlit("JSON");
    reveal_strlit("JSON.parse");
    reveal_strlit("JSON.stringify");
    reveal_strlit("Math");
    reveal_strlit("Math.abs");
    reveal_strlit("Math.floor");
    reveal_strlit("Math.ceil");
    reveal_strlit("Math.random");
    reveal_strlit("parseInt");
    reveal_strlit("parseFloat");
    reveal_strlit("encodeURIComponent");
    reveal_strlit("decodeURIComponent");
    reveal_strlit("Error");
    reveal_strlit("EvalError");
    reveal_strlit("RangeError");
    reveal_strlit("ReferenceError");
    reveal_strlit("SyntaxError");
    reveal_strlit("TypeError");
    reveal_strlit("URIError");
    reveal_strlit("AggregateError");
    reveal_strlit("SuppressedError");
    reveal_strlit("SuppressedError");
    assert(globals_table()[27].path == "SuppressedError"@);
    assert(globals_table()[0].path.len() != 15);
    assert(globals_table()[1].path.len() != 15);
    assert(globals_table()[2].path.len() != 15);
    assert(globals_table()[3].path.len() != 15);
    assert(globals_table()[4].path.len() != 15);
    assert(globals_table()[5].path.len() != 15);
    assert(globals_table()[6].path.len() != 15);
    assert(globals_table()[7].path.len() != 15);
    assert(globals_table()[8].path.len() != 15);
    assert(globals_table()[9].path.len() != 15);
    assert(globals_table()[10].path.len() != 15);
    assert(globals_table()[11].path.len() != 15);
    assert(globals_table()[12].path.len() != 15);
    assert(globals_table()[13].path.len() != 15);
    assert(globals_table()[14].path.len() != 15);
    assert(globals_table()[15].path.len() != 15);
    assert(globals_table()[16].path.len() != 15);
    assert(globals_table()[17].path.len() != 15);
    assert(globals_table()[18].path.len() != 15);
    assert(globals_table()[19].path.len() != 15);
    assert(globals_table()[20].path.len() != 15);
    assert(globals_table()[21].path.len() != 15);
    assert(globals_table()[22].path.len() != 15);
    assert(globals_table()[23].path.len() != 15);
    assert(globals_table()[24].path.len() != 15);
    assert(globals_table()[25].path.len() != 15);
    assert(globals_table()[26].path.len() != 15);
    assert forall|j: int| 0 <= j < 27 implies #[trigger] globals_table()[j].path != "SuppressedError"@ by {
        if j == 0 {
            assert(globals_table()[0].path.len() != 15);
        } else if j == 1 {
            assert(globals_table()[1].path.len() != 15);
        } else if j == 2 {
            assert(globals_table()[2].path.len() != 15);
        } else if j == 3 {
            assert(globals_table()[3].path.len() != 15);
        } else if j == 4 {
            assert(globals_table()[4].path.len() != 15);
        } else if j == 5 {
            assert(globals_table()[5].path.len() != 15);
        } else if j == 6 {
            assert(globals_table()[6].path.len() != 15);
        } else if j == 7 {
            assert(globals_table()[7].path.len() != 15);
        } else if j == 8 {
            assert(globals_table()[8].path.len() != 15);
        } else if j == 9 {
            assert(globals_table()[9].path.len() != 15);
        } else if j == 10 {
            assert(globals_table()[10].path.len() != 15);
        } else if j == 11 {
            assert(globals_table()[11].path.len() != 15);
        } else if j == 12 {
            assert(globals_table()[12].path.len() != 15);
        } else if j == 13 {
            assert(globals_table()[13].path.len() != 15);
        } else if j == 14 {
            assert(globals_table()[14].path.len() != 15);
        } else if j == 15 {
            assert(globals_table()[15].path.len() != 15);
        } else if j == 16 {
            assert(globals_table()[16].path.len() != 15);
        } else if j == 17 {
            assert(globals_table()[17].path.len() != 15);
        } else if j == 18 {
            assert(globals_table()[18].path.len() != 15);
        } else if j == 19 {
            assert(globals_table()[19].path.len() != 15);
        } else if j == 20 {
            assert(globals_table()[20].path.len() != 15);
        } else if j == 21 {
            assert(globals_table()[21].path.len() != 15);
        } else if j == 22 {
            assert(globals_table()[22].path.len() != 15);
        } else if j == 23 {
            assert(globals_table()[23].path.len() != 15);
        } else if j == 24 {
            assert(globals_table()[24].path.len() != 15);
        } else if j == 25 {
            assert(globals_table()[25].path.len() != 15);
        } else if j == 26 {
            assert(globals_table()[26].path.len() != 15);
        }
    }
    lemma_find_first_from(globals_table(), "SuppressedError"@, 0, 27);
    reveal_strlit("globalThis.");
    assert("SuppressedError"@.take(11)[0] == "SuppressedError"@[0]);
    assert("SuppressedError"@.take(11) != "globalThis."@);
    assert(strip_global_this("SuppressedError"@) == "SuppressedError"@);
    reveal_strlit("TypeError");
}

/// A global found by `find_global` has the path that was asked for.
proof fn lemma_find_from_path(table: Seq<GlobalView>, path: Seq<char>, i: nat)
    ensures
        find_global_from(table, path, i) matches Some(g) ==> g.path == path && exists|k: int|
            0 <= k < table.len() && table[k] == g,
    decreases table.len() - i,
{
    if i < table.len() {
        lemma_find_from_path(table, path, i + 1);
    }
}

/// No standard global path starts with `prototype.`, and none is long enough to
/// start with `globalThis.prototype.`.
proof fn lemma_no_prototype_paths()
    ensures
        forall|k: int|
            0 <= k < globals_table().len() ==> !(globals_table()[k].path.len() >= 10
                && globals_table()[k].path.take(10) == "prototype."@),
        forall|k: int| 0 <= k < globals_table().len() ==> globals_table()[k].path.len() < 21,
{
    reveal_strlit("prototype.");
    reveal_strlit("globalThis");
    reveal_strlit("console");
    reveal_strlit("console.log");
    reveal_strlit("console.info");
    reveal_strlit("console.warn");
    reveal_strlit("console.error");
    reveal_strlit("console.debug");
    reveal_strlit("JSON");
    reveal_strlit("JSON.parse");
    reveal_strlit("JSON.stringify");
    reveal_strlit("Math");
    reveal_strlit("Math.abs");
    reveal_strlit("Math.floor");
    reveal_strlit("Math.ceil");
    reveal_strlit("Math.random");
    reveal_strlit("parseInt");
    reveal_strlit("parseFloat");
    reveal_strlit("encodeURIComponent");
    reveal_strlit("decodeURIComponent");
    reveal_strlit("Error");
    reveal_strlit("EvalError");
    reveal_strlit("RangeError");
    reveal_strlit("ReferenceError");
    reveal_strlit("SyntaxError");
    reveal_strlit("TypeError");
    reveal_strlit("URIError");
    reveal_strlit("AggregateError");
    reveal_strlit("SuppressedError");
    assert(globals_table()[0].path[0] != "prototype."@[0]);
    assert(globals_table()[0].path.len() < 21);
    assert(globals_table()[1].path.len() < 10);
    assert(globals_table()[1].path.len() < 21);
    assert(globals_table()[2].path[0] != "prototype."@[0]);
    assert(globals_table()[2].path.len() < 21);
    assert(globals_table()[3].path[0] != "prototype."@[0]);
    assert(globals_table()[3].path.len() < 21);
    assert(globals_table()[4].path[0] != "prototype."@[0]);
    assert(globals_table()[4].path.len() < 21);
    assert(globals_table()[5].path[0] != "prototype."@[0]);
    assert(globals_table()[5].path.len() < 21);
    assert(globals_table()[6].path[0] != "prototype."@[0]);
    assert(globals_table()[6].path.len() < 21);
    assert(globals_table()[7].path.len() < 10);
    assert(globals_table()[7].path.len() < 21);
    assert(globals_table()[8].path[0] != "prototype."@[0]);
    assert(globals_table()[8].path.len() < 21);
    assert(globals_table()[9].path[0] != "prototype."@[0]);
    assert(globals_table()[9].path.len() < 21);
    assert(globals_table()[10].path.len() < 10);
    assert(globals_table()[10].path.len() < 21);
    assert(globals_table()[11].path.len() < 10);
    assert(globals_table()[11].path.len() < 21);
    assert(globals_table()[12].path[0] != "prototype."@[0]);
    assert(globals_table()[12].path.len() < 21);
    assert(globals_table()[13].path.len() < 10);
    assert(globals_table()[13].path.len() < 21);
    assert(globals_table()[14].path[0] != "prototype."@[0]);
    assert(globals_table()[14].path.len() < 21);
    assert(globals_table()[15].path.len() < 10);
    assert(globals_table()[15].path.len() < 21);
    assert(globals_table()[16].path[1] != "prototype."@[1]);
    assert(globals_table()[16].path.len() < 21);
    assert(globals_table()[17].path[0] != "prototype."@[0]);
    assert(globals_table()[17].path.len() < 21);
    assert(globals_table()[18].path[0] != "prototype."@[0]);
    assert(globals_table()[18].path.len() < 21);
    assert(globals_table()[19].path.len() < 10);
    assert(globals_table()[19].path.len() < 21);
    assert(globals_table()[20].path.len() < 10);
    assert(globals_table()[20].path.len() < 21);
    assert(globals_table()[21].path[0] != "prototype."@[0]);
    assert(globals_table()[21].path.len() < 21);
    assert(globals_table()[22].path[0] != "prototype."@[0]);
    assert(globals_table()[22].path.len() < 21);
    assert(globals_table()[23].path[0] != "prototype."@[0]);
    assert(globals_table()[23].path.len() < 21);
    assert(globals_table()[24].path.len() < 10);
    assert(globals_table()[24].path.len() < 21);
    assert(globals_table()[25].path.len() < 10);
    assert(globals_table()[25].path.len() < 21);
    assert(globals_table()[26].path[0] != "prototype."@[0]);
    assert(globals_table()[26].path.len() < 21);
    assert(globals_table()[27].path[0] != "prototype."@[0]);
    assert(globals_table()[27].path.len() < 21);
    assert forall|k: int|
        0 <= k < globals_table().len() implies !(globals_table()[k].path.len() >= 10
            && globals_table()[k].path.take(10) == "prototype."@) by {
        if globals_table()[k].path.len() >= 10 && globals_table()[k].path.take(10) == "prototype."@ {
            assert(globals_table()[k].path.take(10)[0] == globals_table()[k].path[0]);
            assert(globals_table()[k].path.take(10)[1] == globals_table()[k].path[1]);
        }
    }
}

/// Joining a suffix that starts with `.` to a path does not create a leading
/// `globalThis.` unless the path already had one or is `globalThis` itself.
proof fn lemma_strip_joined(object: Seq<char>, rest: Seq<char>)
    requires
        rest.len() >= 1,
        rest[0] == '.',
        object != "globalThis"@,
    ensures
        strip_global_this(object + rest) == strip_global_this(object) + rest,
{
    reveal_strlit("globalThis.");
    reveal_strlit("globalThis");
    let joined = object + rest;
    let g = "globalThis."@;
    if object.len() >= 11 && object.take(11) == g {
        assert(joined.take(11) =~= object.take(11));
        assert(joined.skip(11) =~= object.skip(11) + rest);
    } else if joined.len() >= 11 && joined.take(11) == g {
        if object.len() >= 11 {
            assert(joined.take(11) =~= object.take(11));
        } else if object.len() == 10 {
            assert(object =~= joined.take(11).take(10));
            assert(g.take(10) =~= "globalThis"@);
        } else {
            assert(joined[object.len() as int] == '.');
            assert(joined.take(11)[object.len() as int] == '.');
            assert(g[object.len() as int] != '.');
        }
    }
}

/// Looking up the property `property` of the global object `object` finds the
/// same global as looking up the joined path `object.property`.
pub proof fn law_property_is_path_lookup(object: Seq<char>, property: Seq<char>)
    ensures
        spec_property(object, property) == spec_get(object + "."@ + property),
{
    reveal_strlit("globalThis.");
    reveal_strlit("globalThis");
    reveal_strlit(".");
    let joined = object + "."@ + property;
    if object == "globalThis"@ {
        assert(joined.take(11) =~= "globalThis."@);
        assert(joined.skip(11) =~= property);
    } else if !property.contains('.') {
        assert(joined =~= object + ("."@ + property));
        lemma_strip_joined(object, "."@ + property);
        assert(strip_global_this(object) + ("."@ + property) =~= strip_global_this(object) + "."@
            + property);
    }
}

/// Looking up the prototype property `property` of the global `instance` finds
/// the same global as looking up the joined path `instance.prototype.property`.
pub proof fn law_prototype_property_is_path_lookup(instance: Seq<char>, property: Seq<char>)
    ensures
        spec_prototype_property(instance, property) == spec_get(
            instance + ".prototype."@ + property,
        ),
{
    reveal_strlit("globalThis.");
    reveal_strlit("globalThis");
    reveal_strlit(".prototype.");
    reveal_strlit("prototype.");
    let rest = ".prototype."@ + property;
    let joined = instance + ".prototype."@ + property;
    assert(joined =~= instance + rest);
    if !property.contains('.') {
        if instance == "globalThis"@ {
            let left = "globalThis"@ + rest;
            let right = rest.skip(1);
            assert(joined.take(11) =~= "globalThis."@);
            assert(joined.skip(11) =~= right);
            lemma_no_prototype_paths();
            lemma_find_from_path(globals_table(), left, 0);
            lemma_find_from_path(globals_table(), right, 0);
            if let Some(g) = find_global(left) {
                assert(left.len() >= 21);
            }
            if let Some(g) = find_global(right) {
                assert(right.take(10) =~= "prototype."@);
            }
        } else {
            lemma_strip_joined(instance, rest);
            assert(strip_global_this(instance) + rest =~= strip_global_this(instance)
                + ".prototype."@ + property);
        }
    }
}

/// Lookups in the table of standard globals.
pub struct EscGlobals;

impl EscGlobals {
    /// Every standard global the analysis knows, in table order.
    pub fn all() -> (r: Vec<EscGlobal>)
        ensures
            global_views(r@) == globals_table(),
    {
        globals()
    }

    /// The global at `path`; a leading `globalThis.` is ignored.
    pub fn get(path: &str) -> (r: Option<EscGlobal>)
        ensures
            global_view(r) == spec_get(path@),
    {
        let chars = chars_of(path);
        let key = strip_prefix_global_this(&chars);
        find(&key)
    }

    /// The property `property` of the global object at path `object`.
    pub fn property(object: &str, property: &str) -> (r: Option<EscGlobal>)
        ensures
            global_view(r) == spec_property(object@, property@),
    {
        let object = chars_of(object);
        let property = chars_of(property);
        let dot = chars_of(".");
        if chars_eq(&object, &chars_of("globalThis")) {
            return find(&property);
        }
        if has_char(&property, '.') {
            let key = strip_prefix_global_this(&concat(&concat(&object, &dot), &property));
            return find(&key);
        }
        let key = concat(&concat(&strip_prefix_global_this(&object), &dot), &property);
        find(&key)
    }

    /// The property `property` of the prototype of the global constructor `instance`.
    pub fn prototype_property(instance: &str, property: &str) -> (r: Option<EscGlobal>)
        ensures
            global_view(r) == spec_prototype_property(instance@, property@),
    {
        let instance = chars_of(instance);
        let property = chars_of(property);
        let middle = chars_of(".prototype.");
        if has_char(&property, '.') {
            let key = strip_prefix_global_this(&concat(&concat(&instance, &middle), &property));
            return find(&key);
        }
        let key = concat(&concat(&strip_prefix_global_this(&instance), &middle), &property);
        find(&key)
    }
}

} // verus!
