//! What is known of a call in Rust source from its name alone, and what a
//! binding attribute says of the item under it.
//!
//! A source parser hands in plain text: the path of a called function,
//! the name of a called method or macro, the tokens of an attribute. What
//! comes back is the tag that a graph node for the call carries.

use vstd::prelude::*;
use vstd::slice::*;
use vstd::string::*;

use crate::text::{bytes_eq, bytes_start_with, is_prefix, opt_text, text};

verus! {

/// What is left of a text behind a prefix.
pub open spec fn behind(prefix: Seq<u8>, s: Seq<u8>) -> Seq<u8> {
    s.subrange(prefix.len() as int, s.len() as int)
}

/// What a function of `std::fs` does, by its name.
pub open spec fn fs_effect(op: Seq<u8>) -> Seq<u8> {
    if op == text("read"@) || op == text("read_to_string"@) || op == text("read_dir"@) || op
        == text("metadata"@) || op == text("canonicalize"@) {
        text("fs:read"@)
    } else if op == text("write"@) || op == text("create"@) || op == text("create_dir"@) || op
        == text("create_dir_all"@) || op == text("remove_file"@) || op == text("remove_dir"@)
        || op == text("remove_dir_all"@) || op == text("rename"@) || op == text("copy"@) || op
        == text("hard_link"@) || op == text("symlink"@) || op == text("set_permissions"@) {
        text("fs:write"@)
    } else {
        text("fs:other"@)
    }
}

/// What a function of `std::env` does, by its name.
pub open spec fn env_effect(op: Seq<u8>) -> Seq<u8> {
    if op == text("var"@) || op == text("var_os"@) || op == text("vars"@) || op == text(
        "vars_os"@,
    ) || op == text("current_dir"@) || op == text("current_exe"@) || op == text("home_dir"@)
        || op == text("temp_dir"@) {
        text("env:read"@)
    } else if op == text("set_var"@) || op == text("remove_var"@) || op == text(
        "set_current_dir"@,
    ) {
        text("env:write"@)
    } else {
        text("env:other"@)
    }
}

/// What a macro does, by its name with the `!`.
pub open spec fn macro_effect(name: Seq<u8>) -> Option<Seq<u8>> {
    if name == text("panic!"@) || name == text("todo!"@) || name == text("unimplemented!"@)
        || name == text("unreachable!"@) {
        Some(text("panic"@))
    } else if name == text("println!"@) || name == text("print!"@) || name == text("eprintln!"@)
        || name == text("eprint!"@) {
        Some(text("io:print"@))
    } else if name == text("dbg!"@) {
        Some(text("io:debug"@))
    } else {
        None
    }
}

/// What a call does, by the path that it names.
pub open spec fn name_effect(call_type: Seq<u8>, name: Seq<u8>) -> Option<Seq<u8>> {
    if is_prefix(text("std::fs::"@), name) {
        Some(fs_effect(behind(text("std::fs::"@), name)))
    } else if is_prefix(text("std::net::"@), name) || is_prefix(text("reqwest::"@), name)
        || is_prefix(text("hyper::"@), name) || is_prefix(text("tokio::net::"@), name) {
        Some(text("net:request"@))
    } else if is_prefix(text("std::io::"@), name) {
        Some(text("io:stream"@))
    } else if is_prefix(text("std::env::"@), name) {
        Some(env_effect(behind(text("std::env::"@), name)))
    } else if is_prefix(text("std::process::"@), name) {
        Some(text("process:spawn"@))
    } else if is_prefix(text("std::thread::"@), name) {
        Some(text("thread:spawn"@))
    } else if call_type == text("macro"@) {
        macro_effect(name)
    } else {
        None
    }
}

/// What a method call does, by the method's name.
pub open spec fn method_effect(method: Seq<u8>) -> Option<Seq<u8>> {
    if method == text("unwrap"@) || method == text("expect"@) {
        Some(text("panic"@))
    } else if method == text("read"@) || method == text("read_exact"@) || method == text(
        "read_to_end"@,
    ) || method == text("read_to_string"@) || method == text("read_line"@) {
        Some(text("io:read"@))
    } else if method == text("write"@) || method == text("write_all"@) || method == text(
        "write_fmt"@,
    ) || method == text("flush"@) {
        Some(text("io:write"@))
    } else if method == text("send"@) || method == text("recv"@) || method == text("connect"@)
        || method == text("bind"@) || method == text("listen"@) || method == text("accept"@) {
        Some(text("net:socket"@))
    } else if method == text("get"@) || method == text("post"@) || method == text("put"@)
        || method == text("delete"@) || method == text("patch"@) || method == text("head"@) {
        Some(text("net:http"@))
    } else if method == text("lock"@) {
        Some(text("sync:lock"@))
    } else if method == text("wait"@) || method == text("notify_one"@) || method == text(
        "notify_all"@,
    ) {
        Some(text("sync:condvar"@))
    } else {
        None
    }
}

/// The side effect of a call: what its path says, or else what its
/// method says.
pub open spec fn side_effect(
    call_type: Seq<u8>,
    name: Option<Seq<u8>>,
    method: Option<Seq<u8>>,
) -> Option<Seq<u8>> {
    let named = match name {
        Some(n) => name_effect(call_type, n),
        None => None,
    };
    match named {
        Some(e) => Some(e),
        None => match method {
            Some(m) => method_effect(m),
            None => None,
        },
    }
}

/// Whether the bytes spell the word.
fn is(s: &[u8], word: &str) -> (r: bool)
    ensures
        r == (s@ == text(word@)),
{
    bytes_eq(s, word.as_bytes())
}

/// Whether the bytes begin with the word.
fn begins(s: &[u8], word: &str) -> (r: bool)
    ensures
        r == is_prefix(text(word@), s@),
{
    bytes_start_with(s, word.as_bytes())
}

/// What is left of the bytes behind a word that they begin with.
fn rest<'a>(s: &'a [u8], word: &str) -> (r: &'a [u8])
    requires
        is_prefix(text(word@), s@),
    ensures
        r@ == behind(text(word@), s@),
{
    slice_subrange(s, word.as_bytes().len(), s.len())
}

fn fs_tag(op: &[u8]) -> (r: &'static str)
    ensures
        text(r@) == fs_effect(op@),
{
    if is(op, "read") || is(op, "read_to_string") || is(op, "read_dir") || is(op, "metadata")
        || is(op, "canonicalize") {
        "fs:read"
    } else if is(op, "write") || is(op, "create") || is(op, "create_dir") || is(
        op,
        "create_dir_all",
    ) || is(op, "remove_file") || is(op, "remove_dir") || is(op, "remove_dir_all") || is(
        op,
        "rename",
    ) || is(op, "copy") || is(op, "hard_link") || is(op, "symlink") || is(
        op,
        "set_permissions",
    ) {
        "fs:write"
    } else {
        "fs:other"
    }
}

fn env_tag(op: &[u8]) -> (r: &'static str)
    ensures
        text(r@) == env_effect(op@),
{
    if is(op, "var") || is(op, "var_os") || is(op, "vars") || is(op, "vars_os") || is(
        op,
        "current_dir",
    ) || is(op, "current_exe") || is(op, "home_dir") || is(op, "temp_dir") {
        "env:read"
    } else if is(op, "set_var") || is(op, "remove_var") || is(op, "set_current_dir") {
        "env:write"
    } else {
        "env:other"
    }
}

/// The model of an optional string slice.
pub open spec fn opt_str(o: Option<&str>) -> Option<Seq<u8>> {
    match o {
        Some(s) => Some(text(s@)),
        None => None,
    }
}

fn macro_tag(name: &[u8]) -> (r: Option<&'static str>)
    ensures
        opt_str(r) == macro_effect(name@),
{
    if is(name, "panic!") || is(name, "todo!") || is(name, "unimplemented!") || is(
        name,
        "unreachable!",
    ) {
        Some("panic")
    } else if is(name, "println!") || is(name, "print!") || is(name, "eprintln!") || is(
        name,
        "eprint!",
    ) {
        Some("io:print")
    } else if is(name, "dbg!") {
        Some("io:debug")
    } else {
        None
    }
}

fn name_tag(call_type: &[u8], name: &[u8]) -> (r: Option<&'static str>)
    ensures
        opt_str(r) == name_effect(call_type@, name@),
{
    if begins(name, "std::fs::") {
        Some(fs_tag(rest(name, "std::fs::")))
    } else if begins(name, "std::net::") || begins(name, "reqwest::") || begins(name, "hyper::")
        || begins(name, "tokio::net::") {
        Some("net:request")
    } else if begins(name, "std::io::") {
        Some("io:stream")
    } else if begins(name, "std::env::") {
        Some(env_tag(rest(name, "std::env::")))
    } else if begins(name, "std::process::") {
        Some("process:spawn")
    } else if begins(name, "std::thread::") {
        Some("thread:spawn")
    } else if is(call_type, "macro") {
        macro_tag(name)
    } else {
        None
    }
}

fn method_tag(method: &[u8]) -> (r: Option<&'static str>)
    ensures
        opt_str(r) == method_effect(method@),
{
    if is(method, "unwrap") || is(method, "expect") {
        Some("panic")
    } else if is(method, "read") || is(method, "read_exact") || is(method, "read_to_end") || is(
        method,
        "read_to_string",
    ) || is(method, "read_line") {
        Some("io:read")
    } else if is(method, "write") || is(method, "write_all") || is(method, "write_fmt") || is(
        method,
        "flush",
    ) {
        Some("io:write")
    } else if is(method, "send") || is(method, "recv") || is(method, "connect") || is(
        method,
        "bind",
    ) || is(method, "listen") || is(method, "accept") {
        Some("net:socket")
    } else if is(method, "get") || is(method, "post") || is(method, "put") || is(
        method,
        "delete",
    ) || is(method, "patch") || is(method, "head") {
        Some("net:http")
    } else if is(method, "lock") {
        Some("sync:lock")
    } else if is(method, "wait") || is(method, "notify_one") || is(method, "notify_all") {
        Some("sync:condvar")
    } else {
        None
    }
}

/// The side effect of a call, as `category:operation`: by the path of
/// the function or the name of the macro where that says anything, else
/// by the name of the method. `call_type` is `function`, `method` or
/// `macro`; a macro's name ends in `!`.
pub fn detect_side_effect(call_type: &str, name: Option<&str>, method: Option<&str>) -> (r:
    Option<String>)
    ensures
        opt_text(r) == side_effect(text(call_type@), opt_str(name), opt_str(method)),
{
    let named: Option<&'static str> = match name {
        Some(n) => name_tag(call_type.as_bytes(), n.as_bytes()),
        None => None,
    };
    let tag: Option<&'static str> = match named {
        Some(e) => Some(e),
        None => match method {
            Some(m) => method_tag(m.as_bytes()),
            None => None,
        },
    };
    match tag {
        Some(t) => Some(t.to_owned()),
        None => None,
    }
}

/// How a method takes `self`: `self`, `&self` or `&mut self`. Without a
/// reference, `mutable` does not count.
pub open spec fn receiver_model(reference: bool, mutable: bool) -> Seq<u8> {
    if reference && mutable {
        text("&mut self"@)
    } else if reference {
        text("&self"@)
    } else {
        text("self"@)
    }
}

/// How a method takes `self`.
pub fn receiver_text(reference: bool, mutable: bool) -> (r: String)
    ensures
        text(r@) == receiver_model(reference, mutable),
{
    if reference && mutable {
        "&mut self".to_owned()
    } else if reference {
        "&self".to_owned()
    } else {
        "self".to_owned()
    }
}

/// The text of the first capture group in the leftmost match of a
/// pattern in a text, as `regex_lite` finds it. `None` where the pattern
/// does not compile, where nothing matches, and where the group took no
/// part in the match.
pub uninterp spec fn regex_group_of(pattern: Seq<u8>, haystack: Seq<u8>) -> Option<Seq<u8>>;

/// `regex_lite::Regex::new`, `Regex::captures` and `Captures::get(1)`:
/// compiles the pattern, searches the text for the leftmost match and
/// hands out what the first capture group matched. The search depends
/// on the pattern and the text alone.
#[verifier::external_body]
pub(crate) fn regex_group(pattern: &str, haystack: &str) -> (r: Option<String>)
    ensures
        opt_text(r) == regex_group_of(text(pattern@), text(haystack@)),
{
    match regex_lite::Regex::new(pattern) {
        Ok(re) => match re.captures(haystack) {
            Some(found) => match found.get(1) {
                Some(group) => Some(group.as_str().to_string()),
                None => None,
            },
            None => None,
        },
        Err(_) => None,
    }
}

/// The word stands in the text at `i`.
pub open spec fn stands_at(word: Seq<u8>, s: Seq<u8>, i: int) -> bool {
    0 <= i && i + word.len() <= s.len() && s.subrange(i, i + word.len()) == word
}

/// The word stands somewhere in the text.
pub open spec fn occurs(word: Seq<u8>, s: Seq<u8>) -> bool {
    exists|i: int| stands_at(word, s, i)
}

/// Whether the word stands somewhere in the text.
pub fn contains_text(s: &str, word: &str) -> (r: bool)
    ensures
        r == occurs(text(word@), text(s@)),
{
    let hay = s.as_bytes();
    let needle = word.as_bytes();
    if needle.len() > hay.len() {
        assert(!occurs(needle@, hay@)) by {
            assert forall|i: int| !stands_at(needle@, hay@, i) by {}
        }
        return false;
    }
    let n: usize = hay.len();
    let m: usize = needle.len();
    let last: usize = n - m;
    let mut i: usize = 0;
    loop
        invariant
            i <= last,
            n == hay@.len(),
            m == needle@.len(),
            last == n - m,
            hay@ == text(s@),
            needle@ == text(word@),
            forall|j: int| 0 <= j < i ==> !stands_at(needle@, hay@, j),
        decreases last - i,
    {
        if bytes_eq(slice_subrange(hay, i, i + m), needle) {
            assert(stands_at(needle@, hay@, i as int));
            return true;
        }
        if i == last {
            assert(!occurs(needle@, hay@)) by {
                assert forall|j: int| !stands_at(needle@, hay@, j) by {}
            }
            return false;
        }
        i += 1;
    }
}

/// What the binding attributes above an item say of it.
#[derive(Debug)]
pub struct NapiInfo {
    /// There is a binding attribute.
    pub is_napi: bool,
    /// The name under which the host sees the item.
    pub js_name: Option<String>,
    pub constructor: bool,
    /// The property that the item reads; the empty text where the
    /// attribute names none.
    pub getter: Option<String>,
    /// The property that the item writes; the empty text where the
    /// attribute names none.
    pub setter: Option<String>,
}

/// What the binding attributes say, text as UTF-8 bytes.
pub ghost struct NapiInfoModel {
    pub is_napi: bool,
    pub js_name: Option<Seq<u8>>,
    pub constructor: bool,
    pub getter: Option<Seq<u8>>,
    pub setter: Option<Seq<u8>>,
}

impl View for NapiInfo {
    type V = NapiInfoModel;

    open spec fn view(&self) -> NapiInfoModel {
        NapiInfoModel {
            is_napi: self.is_napi,
            js_name: opt_text(self.js_name),
            constructor: self.constructor,
            getter: opt_text(self.getter),
            setter: opt_text(self.setter),
        }
    }
}

/// What is known of an item without a binding attribute.
pub open spec fn no_info() -> NapiInfoModel {
    NapiInfoModel { is_napi: false, js_name: None, constructor: false, getter: None, setter: None }
}

/// The pattern of `js_name = "..."`.
pub open spec fn js_name_pattern() -> Seq<u8> {
    text("js_name\\s*=\\s*\"([^\"]+)\""@)
}

/// The pattern of `getter = "..."`.
pub open spec fn getter_pattern() -> Seq<u8> {
    text("getter\\s*=\\s*\"([^\"]+)\""@)
}

/// The pattern of `setter = "..."`.
pub open spec fn setter_pattern() -> Seq<u8> {
    text("setter\\s*=\\s*\"([^\"]+)\""@)
}

/// The property behind a key word: the name that was found behind it,
/// or the empty text; what was known before where the key word is not
/// there.
pub open spec fn property(
    before: Option<Seq<u8>>,
    word: Seq<u8>,
    found: Option<Seq<u8>>,
    tokens: Seq<u8>,
) -> Option<Seq<u8>> {
    if occurs(word, tokens) {
        Some(
            match found {
                Some(name) => name,
                None => Seq::empty(),
            },
        )
    } else {
        before
    }
}

/// The names that were found in the tokens of an attribute.
pub ghost struct FoundModel {
    pub js_name: Option<Seq<u8>>,
    pub getter: Option<Seq<u8>>,
    pub setter: Option<Seq<u8>>,
}

/// What is known after one more binding attribute, given by its tokens
/// and the names that were found in them.
pub open spec fn absorbed(info: NapiInfoModel, tokens: Seq<u8>, found: FoundModel) -> NapiInfoModel {
    NapiInfoModel {
        is_napi: true,
        js_name: match found.js_name {
            Some(name) => Some(name),
            None => info.js_name,
        },
        constructor: info.constructor || occurs(text("constructor"@), tokens),
        getter: property(info.getter, text("getter"@), found.getter, tokens),
        setter: property(info.setter, text("setter"@), found.setter, tokens),
    }
}

/// The names that the patterns find in the tokens of an attribute.
pub open spec fn found_in(tokens: Seq<u8>) -> FoundModel {
    FoundModel {
        js_name: regex_group_of(js_name_pattern(), tokens),
        getter: regex_group_of(getter_pattern(), tokens),
        setter: regex_group_of(setter_pattern(), tokens),
    }
}

/// What is known after one more binding attribute, given by the tokens
/// in its brackets, or `None` for an attribute without brackets.
pub open spec fn with_attribute(info: NapiInfoModel, tokens: Option<Seq<u8>>) -> NapiInfoModel {
    match tokens {
        None => NapiInfoModel { is_napi: true, ..info },
        Some(t) => absorbed(info, t, found_in(t)),
    }
}

/// What the first `k` binding attributes say.
pub open spec fn info_of(attributes: Seq<Option<Seq<u8>>>, k: int) -> NapiInfoModel
    decreases k,
{
    if k <= 0 {
        no_info()
    } else {
        with_attribute(info_of(attributes, k - 1), attributes[k - 1])
    }
}

/// The models of a list of optional strings.
pub open spec fn opt_texts(s: Seq<Option<String>>) -> Seq<Option<Seq<u8>>> {
    s.map_values(|o: Option<String>| opt_text(o))
}

/// The names that were found in the tokens of an attribute.
#[derive(Debug)]
pub struct Found {
    /// What stands behind `js_name =`.
    pub js_name: Option<String>,
    /// What stands behind `getter =`.
    pub getter: Option<String>,
    /// What stands behind `setter =`.
    pub setter: Option<String>,
}

impl View for Found {
    type V = FoundModel;

    open spec fn view(&self) -> FoundModel {
        FoundModel {
            js_name: opt_text(self.js_name),
            getter: opt_text(self.getter),
            setter: opt_text(self.setter),
        }
    }
}

/// The property behind a key word.
fn read_property(before: Option<String>, word: &str, found: Option<String>, tokens: &str) -> (r:
    Option<String>)
    ensures
        opt_text(r) == property(opt_text(before), text(word@), opt_text(found), text(tokens@)),
{
    if contains_text(tokens, word) {
        match found {
            Some(name) => Some(name),
            None => {
                let empty = String::new();
                proof {
                    assert(empty@ =~= Seq::<char>::empty());
                    assert(text(empty@) =~= Seq::<u8>::empty()) by {
                        reveal_with_fuel(vstd::utf8::encode_utf8, 2);
                    }
                }
                Some(empty)
            },
        }
    } else {
        before
    }
}

/// What is known after one more binding attribute, given by its tokens
/// and the names that were found in them: the attribute names the item
/// `js_name` if one was found; makes it a constructor if the tokens hold
/// `constructor`; and makes it a getter or a setter if the tokens hold
/// `getter` or `setter`, of the property that was found, or else of the
/// property of the empty name.
pub fn absorb(info: NapiInfo, tokens: &str, found: Found) -> (r: NapiInfo)
    ensures
        r@ == absorbed(info@, text(tokens@), found@),
{
    let js_name = match found.js_name {
        Some(name) => Some(name),
        None => info.js_name,
    };
    let constructor = info.constructor || contains_text(tokens, "constructor");
    let getter = read_property(info.getter, "getter", found.getter, tokens);
    let setter = read_property(info.setter, "setter", found.setter, tokens);
    NapiInfo { is_napi: true, js_name, constructor, getter, setter }
}

/// Looks for the names in the tokens of an attribute.
fn find_names(tokens: &str) -> (r: Found)
    ensures
        r@ == found_in(text(tokens@)),
{
    Found {
        js_name: regex_group("js_name\\s*=\\s*\"([^\"]+)\"", tokens),
        getter: regex_group("getter\\s*=\\s*\"([^\"]+)\"", tokens),
        setter: regex_group("setter\\s*=\\s*\"([^\"]+)\"", tokens),
    }
}

/// What the binding attributes above an item say of it. Each entry
/// stands for one binding attribute, in the order of the source: the
/// tokens in its brackets, or `None` where it has none. A later
/// attribute overrides an earlier one where it names the same thing.
pub fn extract_napi_info(attributes: &[Option<String>]) -> (r: NapiInfo)
    ensures
        r@ == info_of(opt_texts(attributes@), attributes@.len() as int),
{
    let ghost models = opt_texts(attributes@);
    let mut info = NapiInfo {
        is_napi: false,
        js_name: None,
        constructor: false,
        getter: None,
        setter: None,
    };
    let mut i: usize = 0;
    while i < attributes.len()
        invariant
            i <= attributes@.len(),
            models == opt_texts(attributes@),
            info@ == info_of(models, i as int),
        decreases attributes@.len() - i,
    {
        assert(models[i as int] == opt_text(attributes@[i as int]));
        match &attributes[i] {
            None => {
                info.is_napi = true;
            },
            Some(tokens) => {
                let found = find_names(tokens.as_str());
                info = absorb(info, tokens.as_str(), found);
            },
        }
        i += 1;
    }
    info
}

} // verus!
