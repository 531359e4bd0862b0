//! The directive parser: invocation options decoded into a generation mode
//! and a source-root path, and the restriction of the annotated target to a
//! module declaration.
//!
//! The options arrive as plain tokens; whether a named path is an existing
//! file is answered by the caller and carried on the token.
use vstd::prelude::*;

use crate::ast::{item_mod_view, item_view, Item, ItemMod, ItemV};
use vstd::string::StrSliceExecFns;

verus! {

/// The generation mode: which variant copies are produced.
#[derive(Copy, Clone, PartialEq, Eq, Structural, Debug)]
pub enum Mode {
    SyncOnly,
    AsyncOnly,
    Both,
}

/// The literal argument of a name-value option.
#[derive(Debug, PartialEq)]
pub enum LitValue {
    /// A string literal and its contents.
    Str(String),
    /// A literal of any other kind.
    Other,
}

/// One invocation-option token, with its source position given by its index
/// in the token list.
#[derive(Debug, PartialEq)]
pub enum ArgToken {
    /// A bare literal argument.
    Lit(LitValue),
    /// A `name = value` option; the final field answers whether the value,
    /// read as a path, names an existing file.
    NameValue(String, LitValue, bool),
    /// A bare option name.
    Flag(String),
    /// Any other option shape.
    OtherMeta,
}

/// Mathematical twin of [`LitValue`].
pub enum LitValueV {
    Str(Seq<char>),
    Other,
}

/// Mathematical twin of [`ArgToken`].
pub enum ArgTokenV {
    Lit(LitValueV),
    NameValue(Seq<char>, LitValueV, bool),
    Flag(Seq<char>),
    OtherMeta,
}

pub open spec fn lit_value_view(v: LitValue) -> LitValueV {
    match v {
        LitValue::Str(s) => LitValueV::Str(s@),
        LitValue::Other => LitValueV::Other,
    }
}

pub open spec fn arg_token_view(t: ArgToken) -> ArgTokenV {
    match t {
        ArgToken::Lit(v) => ArgTokenV::Lit(lit_value_view(v)),
        ArgToken::NameValue(name, v, is_file) => ArgTokenV::NameValue(
            name@,
            lit_value_view(v),
            is_file,
        ),
        ArgToken::Flag(name) => ArgTokenV::Flag(name@),
        ArgToken::OtherMeta => ArgTokenV::OtherMeta,
    }
}

pub open spec fn arg_tokens_view(s: Seq<ArgToken>) -> Seq<ArgTokenV>
    decreases s,
{
    if s.len() == 0 {
        Seq::<ArgTokenV>::empty()
    } else {
        arg_tokens_view(s.subrange(0, s.len() - 1)).push(arg_token_view(s[s.len() - 1]))
    }
}

pub proof fn lemma_arg_tokens_view(s: Seq<ArgToken>)
    ensures
        arg_tokens_view(s).len() == s.len(),
        forall|i: int|
            0 <= i < s.len() ==> #[trigger] arg_tokens_view(s)[i] == arg_token_view(s[i]),
    decreases s,
{
    if s.len() > 0 {
        let pre = s.subrange(0, s.len() - 1);
        lemma_arg_tokens_view(pre);
        assert forall|i: int|
            0 <= i < s.len() implies #[trigger] arg_tokens_view(s)[i] == arg_token_view(s[i]) by {
            if i < s.len() - 1 {
                assert(pre[i] == s[i]);
            }
        }
    }
}

/// A rejected invocation: each variant names the offence, most with the
/// index of the offending token.
#[derive(Copy, Clone, PartialEq, Eq, Structural, Debug)]
pub enum DirectiveError {
    /// More tokens than the directive accepts.
    TooMany,
    /// A bare literal where an option was expected.
    LiteralArg(usize),
    /// The source-root option's value is not a string literal.
    PathNotString(usize),
    /// The source-root path is absolute; only relative paths are accepted.
    AbsolutePath(usize),
    /// The source-root path names no existing file.
    FileNotFound(usize),
    /// An option name the directive does not recognize.
    UnknownOption(usize),
    /// Both variant-restriction options at once.
    ExclusiveConflict(usize),
    /// A test-directive argument of the wrong shape.
    TestArgInvalid(usize),
    /// A test-directive name option whose value is not a string literal.
    TestNameNotString(usize),
}

/// The decoded invocation: the mode and the source-root path.
#[derive(Debug, PartialEq)]
pub struct AmphiArgs {
    pub mode: Mode,
    pub path: String,
}

/// Mathematical twin of [`AmphiArgs`].
pub struct AmphiArgsV {
    pub mode: Mode,
    pub path: Seq<char>,
}

pub open spec fn amphi_args_view(a: AmphiArgs) -> AmphiArgsV {
    AmphiArgsV { mode: a.mode, path: a.path@ }
}

// ------------------------------------------------------------------
// Path strings.
// ------------------------------------------------------------------

/// The last position holding the character, or -1.
pub open spec fn last_index_of(s: Seq<char>, c: char) -> int
    decreases s,
{
    if s.len() == 0 {
        -1
    } else if s[s.len() - 1] == c {
        s.len() - 1
    } else {
        last_index_of(s.subrange(0, s.len() - 1), c)
    }
}

/// Whether the path is absolute: it begins with the path separator.
pub open spec fn is_absolute(p: Seq<char>) -> bool {
    p.len() > 0 && p[0] == '/'
}

/// The path with its extension removed: everything from the last dot on,
/// provided that dot stands inside the last segment and not at its start.
pub open spec fn strip_ext(p: Seq<char>) -> Seq<char> {
    let sl = last_index_of(p, '/');
    let d = last_index_of(p, '.');
    if d > sl + 1 {
        p.subrange(0, d)
    } else {
        p
    }
}

/// The last segment of the path.
pub open spec fn file_name(p: Seq<char>) -> Seq<char> {
    p.subrange(last_index_of(p, '/') + 1, p.len() as int)
}

/// The path with its last segment removed; empty when there is only one.
pub open spec fn parent(p: Seq<char>) -> Seq<char> {
    let sl = last_index_of(p, '/');
    if sl < 0 {
        Seq::<char>::empty()
    } else {
        p.subrange(0, sl)
    }
}

pub proof fn lemma_last_index_bounds(s: Seq<char>, c: char)
    ensures
        -1 <= last_index_of(s, c) < s.len(),
    decreases s,
{
    if s.len() > 0 && s[s.len() - 1] != c {
        lemma_last_index_bounds(s.subrange(0, s.len() - 1), c);
    }
}

proof fn lemma_last_index_found(s: Seq<char>, c: char, i: int)
    requires
        0 <= i < s.len(),
        s[i] == c,
        forall|j: int| i < j < s.len() ==> s[j] != c,
    ensures
        last_index_of(s, c) == i,
    decreases s,
{
    if i < s.len() - 1 {
        let pre = s.subrange(0, s.len() - 1);
        assert forall|j: int| i < j < pre.len() implies pre[j] != c by {
            assert(pre[j] == s[j]);
        }
        assert(pre[i] == s[i]);
        lemma_last_index_found(pre, c, i);
    }
}

proof fn lemma_last_index_absent(s: Seq<char>, c: char)
    requires
        forall|j: int| 0 <= j < s.len() ==> s[j] != c,
    ensures
        last_index_of(s, c) == -1,
    decreases s,
{
    if s.len() > 0 {
        let pre = s.subrange(0, s.len() - 1);
        assert forall|j: int| 0 <= j < pre.len() implies pre[j] != c by {
            assert(pre[j] == s[j]);
        }
        lemma_last_index_absent(pre, c);
    }
}

/// The last position holding the character, scanned in place.
fn last_index_of_exec(s: &String, c: char) -> (r: Option<usize>)
    ensures
        match r {
            Option::Some(i) => i as int == last_index_of(s@, c),
            Option::None => last_index_of(s@, c) == -1,
        },
{
    let slice = s.as_str();
    let n = slice.unicode_len();
    let mut i = n;
    while i > 0
        invariant
            i <= n,
            n == s@.len(),
            slice@ == s@,
            forall|j: int| i <= j < s@.len() ==> s@[j] != c,
        decreases i,
    {
        i = i - 1;
        if slice.get_char(i) == c {
            proof {
                lemma_last_index_found(s@, c, i as int);
            }
            return Option::Some(i);
        }
    }
    proof {
        lemma_last_index_absent(s@, c);
    }
    Option::None
}

fn is_absolute_exec(p: &String) -> (r: bool)
    ensures
        r == is_absolute(p@),
{
    let slice = p.as_str();
    slice.unicode_len() > 0 && slice.get_char(0) == '/'
}

fn strip_ext_exec(p: &String) -> (r: String)
    ensures
        r@ == strip_ext(p@),
{
    let n = p.as_str().unicode_len();
    let sl = last_index_of_exec(p, '/');
    let d = last_index_of_exec(p, '.');
    proof {
        lemma_last_index_bounds(p@, '/');
        lemma_last_index_bounds(p@, '.');
    }
    let fn_start = match sl {
        Option::Some(i) => i + 1,
        Option::None => 0,
    };
    match d {
        Option::Some(di) if di > fn_start => p.as_str().substring_char(0, di).to_owned(),
        _ => p.clone(),
    }
}

fn file_name_exec(p: &String) -> (r: String)
    ensures
        r@ == file_name(p@),
{
    let n = p.as_str().unicode_len();
    let sl = last_index_of_exec(p, '/');
    proof {
        lemma_last_index_bounds(p@, '/');
    }
    let start = match sl {
        Option::Some(i) => i + 1,
        Option::None => 0,
    };
    p.as_str().substring_char(start, n).to_owned()
}

fn parent_exec(p: &String) -> (r: String)
    ensures
        r@ == parent(p@),
{
    let sl = last_index_of_exec(p, '/');
    proof {
        lemma_last_index_bounds(p@, '/');
    }
    match sl {
        Option::Some(i) => p.as_str().substring_char(0, i).to_owned(),
        Option::None => String::new(),
    }
}

// ------------------------------------------------------------------
// What parsing the generation directive means.
// ------------------------------------------------------------------

/// The closing step: a source root whose last segment is the crate root
/// file's stem stands for the directory above it.
pub open spec fn finish_path(p: Seq<char>) -> Seq<char> {
    if file_name(p) == "lib"@ || file_name(p) == "main"@ {
        parent(p)
    } else {
        p
    }
}

/// One option at a time, from the left: restriction options combine unless
/// they conflict, a source root must be a relative path naming an existing
/// file, and anything else is rejected with its position.
pub open spec fn parse_args_rest(
    tokens: Seq<ArgTokenV>,
    i: int,
    mode: Mode,
    path: Seq<char>,
) -> Result<AmphiArgsV, DirectiveError>
    decreases tokens.len() - i,
{
    if i < 0 || i >= tokens.len() {
        Result::Ok(AmphiArgsV { mode, path: finish_path(path) })
    } else {
        match tokens[i] {
            ArgTokenV::Lit(_) => Result::Err(DirectiveError::LiteralArg(i as usize)),
            ArgTokenV::NameValue(name, value, is_file) => if name == "path"@ {
                match value {
                    LitValueV::Str(p) => if is_absolute(p) {
                        Result::Err(DirectiveError::AbsolutePath(i as usize))
                    } else if !is_file {
                        Result::Err(DirectiveError::FileNotFound(i as usize))
                    } else {
                        parse_args_rest(tokens, i + 1, mode, strip_ext(p))
                    },
                    LitValueV::Other => Result::Err(DirectiveError::PathNotString(i as usize)),
                }
            } else {
                Result::Err(DirectiveError::UnknownOption(i as usize))
            },
            ArgTokenV::Flag(name) => if name == "async_only"@ {
                if mode == Mode::SyncOnly {
                    Result::Err(DirectiveError::ExclusiveConflict(i as usize))
                } else {
                    parse_args_rest(tokens, i + 1, Mode::AsyncOnly, path)
                }
            } else if name == "blocking_only"@ {
                if mode == Mode::AsyncOnly {
                    Result::Err(DirectiveError::ExclusiveConflict(i as usize))
                } else {
                    parse_args_rest(tokens, i + 1, Mode::SyncOnly, path)
                }
            } else {
                Result::Err(DirectiveError::UnknownOption(i as usize))
            },
            ArgTokenV::OtherMeta => Result::Err(DirectiveError::UnknownOption(i as usize)),
        }
    }
}

/// The whole directive: at most two options, folded from the default mode
/// and the default source root.
pub open spec fn parse_args_spec(tokens: Seq<ArgTokenV>) -> Result<AmphiArgsV, DirectiveError> {
    if tokens.len() > 2 {
        Result::Err(DirectiveError::TooMany)
    } else {
        parse_args_rest(tokens, 0, Mode::Both, "src"@)
    }
}

pub open spec fn args_result_view(r: Result<AmphiArgs, DirectiveError>) -> Result<
    AmphiArgsV,
    DirectiveError,
> {
    match r {
        Result::Ok(a) => Result::Ok(amphi_args_view(a)),
        Result::Err(e) => Result::Err(e),
    }
}

/// Decodes the generation directive's options.
pub fn parse_args(tokens: &Vec<ArgToken>) -> (r: Result<AmphiArgs, DirectiveError>)
    ensures
        args_result_view(r) == parse_args_spec(arg_tokens_view(tokens@)),
{
    proof {
        lemma_arg_tokens_view(tokens@);
    }
    let ghost tv = arg_tokens_view(tokens@);
    if tokens.len() > 2 {
        return Result::Err(DirectiveError::TooMany);
    }
    let mut mode = Mode::Both;
    let mut path: String = "src".to_owned();
    let mut i: usize = 0;
    while i < tokens.len()
        invariant
            i <= tokens.len(),
            tokens@.len() <= 2,
            tv == arg_tokens_view(tokens@),
            tv.len() == tokens@.len(),
            forall|k: int| 0 <= k < tokens@.len() ==> #[trigger] tv[k] == arg_token_view(
                tokens@[k],
            ),
            parse_args_rest(tv, 0, Mode::Both, "src"@) == parse_args_rest(
                tv,
                i as int,
                mode,
                path@,
            ),
        decreases tokens@.len() - i,
    {
        match &tokens[i] {
            ArgToken::Lit(_) => {
                return Result::Err(DirectiveError::LiteralArg(i));
            },
            ArgToken::NameValue(name, value, is_file) => {
                if *name == "path".to_owned() {
                    match value {
                        LitValue::Str(p) => {
                            if is_absolute_exec(p) {
                                return Result::Err(DirectiveError::AbsolutePath(i));
                            } else if !*is_file {
                                return Result::Err(DirectiveError::FileNotFound(i));
                            } else {
                                path = strip_ext_exec(p);
                            }
                        },
                        LitValue::Other => {
                            return Result::Err(DirectiveError::PathNotString(i));
                        },
                    }
                } else {
                    return Result::Err(DirectiveError::UnknownOption(i));
                }
            },
            ArgToken::Flag(name) => {
                if *name == "async_only".to_owned() {
                    if mode == Mode::SyncOnly {
                        return Result::Err(DirectiveError::ExclusiveConflict(i));
                    } else {
                        mode = Mode::AsyncOnly;
                    }
                } else if *name == "blocking_only".to_owned() {
                    if mode == Mode::AsyncOnly {
                        return Result::Err(DirectiveError::ExclusiveConflict(i));
                    } else {
                        mode = Mode::SyncOnly;
                    }
                } else {
                    return Result::Err(DirectiveError::UnknownOption(i));
                }
            },
            ArgToken::OtherMeta => {
                return Result::Err(DirectiveError::UnknownOption(i));
            },
        }
        i += 1;
    }
    let name = file_name_exec(&path);
    if name == "lib".to_owned() || name == "main".to_owned() {
        path = parent_exec(&path);
    }
    Result::Ok(AmphiArgs { mode, path })
}

// ------------------------------------------------------------------
// The paired-test directive.
// ------------------------------------------------------------------

/// What decoding the paired-test directive means: no argument names the
/// default scope, one string (bare or as `name = ...`) names it, anything
/// else is rejected.
pub open spec fn parse_test_args_spec(tokens: Seq<ArgTokenV>) -> Result<
    Seq<char>,
    DirectiveError,
> {
    if tokens.len() == 0 {
        Result::Ok("amphi"@)
    } else if tokens.len() == 1 {
        match tokens[0] {
            ArgTokenV::Lit(LitValueV::Str(s)) => Result::Ok(s),
            ArgTokenV::Lit(LitValueV::Other) => Result::Err(DirectiveError::TestArgInvalid(0)),
            ArgTokenV::NameValue(name, value, _) => if name == "name"@ {
                match value {
                    LitValueV::Str(s) => Result::Ok(s),
                    LitValueV::Other => Result::Err(DirectiveError::TestNameNotString(0)),
                }
            } else {
                Result::Err(DirectiveError::TestArgInvalid(0))
            },
            _ => Result::Err(DirectiveError::TestArgInvalid(0)),
        }
    } else {
        Result::Err(DirectiveError::TooMany)
    }
}

pub open spec fn test_result_view(r: Result<String, DirectiveError>) -> Result<
    Seq<char>,
    DirectiveError,
> {
    match r {
        Result::Ok(s) => Result::Ok(s@),
        Result::Err(e) => Result::Err(e),
    }
}

/// Decodes the paired-test directive's scope-name argument.
pub fn parse_test_args(tokens: &Vec<ArgToken>) -> (r: Result<String, DirectiveError>)
    ensures
        test_result_view(r) == parse_test_args_spec(arg_tokens_view(tokens@)),
{
    proof {
        lemma_arg_tokens_view(tokens@);
    }
    if tokens.len() == 0 {
        Result::Ok("amphi".to_owned())
    } else if tokens.len() == 1 {
        match &tokens[0] {
            ArgToken::Lit(LitValue::Str(s)) => Result::Ok(s.clone()),
            ArgToken::Lit(LitValue::Other) => Result::Err(DirectiveError::TestArgInvalid(0)),
            ArgToken::NameValue(name, value, _) => {
                if *name == "name".to_owned() {
                    match value {
                        LitValue::Str(s) => Result::Ok(s.clone()),
                        LitValue::Other => Result::Err(DirectiveError::TestNameNotString(0)),
                    }
                } else {
                    Result::Err(DirectiveError::TestArgInvalid(0))
                }
            },
            _ => Result::Err(DirectiveError::TestArgInvalid(0)),
        }
    } else {
        Result::Err(DirectiveError::TooMany)
    }
}

// ------------------------------------------------------------------
// The annotated target must be a module.
// ------------------------------------------------------------------

/// A structural-target rejection: the annotation sits on a declaration
/// kind that cannot host a variant split.
#[derive(Copy, Clone, PartialEq, Eq, Structural, Debug)]
pub enum TargetError {
    NotAModule,
}

/// The annotated declaration, restricted to a module.
pub struct ItemModRestrict(pub ItemMod);

impl ItemModRestrict {
    /// Accepts the annotated declaration only when it is a module; any
    /// other declaration kind is a structural-target error.
    pub fn from_item(item: Item) -> (r: Result<ItemModRestrict, TargetError>)
        ensures
            match r {
                Result::Ok(restricted) => item_view(item) matches ItemV::Mod(mv)
                    && item_mod_view(restricted.0) == mv,
                Result::Err(e) => !(item_view(item) is Mod) && e == TargetError::NotAModule,
            },
    {
        match item {
            Item::Mod(m) => Result::Ok(ItemModRestrict(m)),
            _ => Result::Err(TargetError::NotAModule),
        }
    }
}

} // verus!
