//! Access to the environment of the host process: lookups and changes of
//! variables, snapshots of all of them, and lists of paths.
//!
//! The environment lives on the host. What is asked of it is checked here
//! before it leaves the enclave, and what comes back is taken as bytes
//! that may hold anything.

use vstd::pervasive::unreached;
use vstd::prelude::*;
use vstd::utf8::*;
use crate::c_str::{no_nul, CString};
use crate::boundary::BoundaryError;
use crate::io::{is_surfaced, surface, Error, ErrorKind};
use crate::memchr::{first_index_of, lemma_first_index_of, lemma_first_index_of_unique, memchr};
use crate::utf8::{str_from_utf8, string_from_utf8};

verus! {

/// The byte that separates the entries of a list of paths.
pub const PATH_SEPARATOR: u8 = 58;

/// The entries of a list of paths: the stretches of `unparsed` between
/// separators. A list without a separator has one entry, which may be
/// empty.
pub open spec fn split_on(unparsed: Seq<u8>, sep: u8) -> Seq<Seq<u8>>
    decreases unparsed.len(),
    via split_on_decreases
{
    match first_index_of(unparsed, sep) {
        None => seq![unparsed],
        Some(i) => seq![unparsed.subrange(0, i)] + split_on(
            unparsed.subrange(i + 1, unparsed.len() as int),
            sep,
        ),
    }
}

#[via_fn]
proof fn split_on_decreases(unparsed: Seq<u8>, sep: u8) {
    lemma_first_index_of(unparsed, sep);
}

/// The entries with a separator between each two of them.
pub open spec fn join_with(paths: Seq<Seq<u8>>, sep: u8) -> Seq<u8>
    decreases paths.len(),
{
    if paths.len() == 0 {
        Seq::empty()
    } else if paths.len() == 1 {
        paths[0]
    } else {
        paths[0] + seq![sep] + join_with(paths.drop_first(), sep)
    }
}

/// No entry holds the separator.
pub open spec fn no_separator(paths: Seq<Seq<u8>>, sep: u8) -> bool {
    forall|i: int, j: int|
        0 <= i < paths.len() && 0 <= j < paths[i].len() ==> #[trigger] paths[i][j] != sep
}

/// A list always has at least one entry, and none of its entries holds the
/// separator.
pub proof fn lemma_split_on(unparsed: Seq<u8>, sep: u8)
    ensures
        split_on(unparsed, sep).len() >= 1,
        no_separator(split_on(unparsed, sep), sep),
    decreases unparsed.len(),
{
    lemma_first_index_of(unparsed, sep);
    match first_index_of(unparsed, sep) {
        None => {},
        Some(i) => {
            let rest = unparsed.subrange(i + 1, unparsed.len() as int);
            lemma_split_on(rest, sep);
            let parts = split_on(unparsed, sep);
            assert forall|a: int, b: int|
                0 <= a < parts.len() && 0 <= b < parts[a].len() implies #[trigger] parts[a][b]
                != sep by {
                if a > 0 {
                    assert(parts[a] == split_on(rest, sep)[a - 1]);
                }
            }
        },
    }
}

/// Joining the entries of a list gives the list back.
pub proof fn lemma_join_split(unparsed: Seq<u8>, sep: u8)
    ensures
        join_with(split_on(unparsed, sep), sep) == unparsed,
    decreases unparsed.len(),
{
    lemma_first_index_of(unparsed, sep);
    match first_index_of(unparsed, sep) {
        None => {},
        Some(i) => {
            let rest = unparsed.subrange(i + 1, unparsed.len() as int);
            lemma_join_split(rest, sep);
            lemma_split_on(rest, sep);
            let parts = split_on(unparsed, sep);
            assert(parts.drop_first() =~= split_on(rest, sep));
            assert(parts[0] + seq![sep] + rest =~= unparsed);
        },
    }
}

/// Splitting what was joined gives the entries back, where there is at
/// least one entry and none holds the separator.
pub proof fn lemma_split_join(paths: Seq<Seq<u8>>, sep: u8)
    requires
        paths.len() >= 1,
        no_separator(paths, sep),
    ensures
        split_on(join_with(paths, sep), sep) == paths,
    decreases paths.len(),
{
    let joined = join_with(paths, sep);
    if paths.len() == 1 {
        lemma_first_index_of(joined, sep);
        assert(split_on(joined, sep) =~= paths);
    } else {
        let rest = paths.drop_first();
        assert(no_separator(rest, sep)) by {
            assert forall|i: int, j: int|
                0 <= i < rest.len() && 0 <= j < rest[i].len() implies #[trigger] rest[i][j]
                != sep by {
                assert(rest[i][j] == paths[i + 1][j]);
            }
        }
        lemma_split_join(rest, sep);
        let head = paths[0];
        assert forall|j: int| 0 <= j < head.len() implies joined[j] != sep by {
            assert(joined[j] == paths[0][j]);
        }
        lemma_first_index_of_unique(joined, sep, head.len() as int);
        assert(joined.subrange(0, head.len() as int) =~= head);
        assert(joined.subrange(head.len() as int + 1, joined.len() as int) =~= join_with(rest, sep));
        assert(split_on(joined, sep) =~= paths);
    }
}

/// The entries of `paths` as sequences of bytes.
pub open spec fn views(paths: Seq<Vec<u8>>) -> Seq<Seq<u8>> {
    Seq::new(paths.len(), |i: int| paths[i]@)
}

/// Joining one entry more appends a separator, unless the entry is the
/// first, and then the entry.
proof fn lemma_join_push(paths: Seq<Seq<u8>>, path: Seq<u8>, sep: u8)
    ensures
        join_with(paths.push(path), sep) == if paths.len() == 0 {
            path
        } else {
            join_with(paths, sep) + seq![sep] + path
        },
    decreases paths.len(),
{
    let all = paths.push(path);
    if paths.len() == 0 {
    } else if paths.len() == 1 {
        assert(all.drop_first() =~= seq![path]);
        assert(join_with(all.drop_first(), sep) == path);
    } else {
        lemma_join_push(paths.drop_first(), path, sep);
        assert(all.drop_first() =~= paths.drop_first().push(path));
        assert(join_with(all, sep) =~= join_with(paths, sep) + seq![sep] + path);
    }
}

fn append_bytes(out: &mut Vec<u8>, bytes: &[u8])
    ensures
        final(out)@ == old(out)@ + bytes@,
{
    let mut i: usize = 0;
    while i < bytes.len()
        invariant
            i <= bytes.len(),
            out@ == old(out)@ + bytes@.subrange(0, i as int),
        decreases bytes.len() - i,
    {
        out.push(bytes[i]);
        i += 1;
    }
    assert(bytes@.subrange(0, i as int) =~= bytes@);
}

/// The entries of a list of paths that have not been handed out yet.
#[derive(Clone, Debug)]
pub struct SplitPaths<'a> {
    unparsed: &'a [u8],
    position: usize,
    finished: bool,
}

impl<'a> View for SplitPaths<'a> {
    type V = Seq<Seq<u8>>;

    /// The entries that are still to come, in their order.
    closed spec fn view(&self) -> Seq<Seq<u8>> {
        if self.finished {
            Seq::empty()
        } else {
            split_on(
                self.unparsed@.subrange(self.position as int, self.unparsed@.len() as int),
                PATH_SEPARATOR,
            )
        }
    }
}

impl<'a> SplitPaths<'a> {
    /// The position lies within the list.
    pub closed spec fn wf(&self) -> bool {
        self.position <= self.unparsed@.len()
    }

    /// The next entry, or `None` when every entry has been handed out.
    pub fn next(&mut self) -> (entry: Option<Vec<u8>>)
        requires
            old(self).wf(),
        ensures
            final(self).wf(),
            match entry {
                Some(path) => old(self)@.len() > 0 && path@ == old(self)@[0] && final(self)@
                    == old(self)@.drop_first(),
                None => old(self)@.len() == 0 && final(self)@ == old(self)@,
            },
    {
        if self.finished {
            return None;
        }
        let rest = vstd::slice::slice_subrange(self.unparsed, self.position, self.unparsed.len());
        proof {
            lemma_split_on(rest@, PATH_SEPARATOR);
        }
        match memchr(PATH_SEPARATOR, rest) {
            Some(i) => {
                let entry = vstd::slice::slice_to_vec(vstd::slice::slice_subrange(rest, 0, i));
                self.position = self.position + i + 1;
                proof {
                    assert(rest@.subrange(i + 1, rest@.len() as int) =~= self.unparsed@.subrange(
                        self.position as int,
                        self.unparsed@.len() as int,
                    ));
                    assert(self@ =~= old(self)@.drop_first());
                }
                Some(entry)
            },
            None => {
                let entry = vstd::slice::slice_to_vec(rest);
                self.finished = true;
                proof {
                    assert(self@ =~= old(self)@.drop_first());
                }
                Some(entry)
            },
        }
    }

    /// How many bytes of the list have not been looked at yet.
    pub closed spec fn spec_unparsed_len(&self) -> nat {
        (self.unparsed@.len() - self.position) as nat
    }

    /// Bounds on how many entries are still to come: none when every entry
    /// has been handed out, and else at least one and at most one more
    /// than there are bytes left.
    pub fn size_hint(&self) -> (bounds: (usize, Option<usize>))
        requires
            self.wf(),
        ensures
            bounds.0 <= self@.len(),
            bounds.1 matches Some(upper) ==> self@.len() <= upper,
            bounds == if self@.len() == 0 {
                (0usize, Some(0usize))
            } else if self.spec_unparsed_len() < usize::MAX {
                (1usize, Some((self.spec_unparsed_len() + 1) as usize))
            } else {
                (1usize, None::<usize>)
            },
    {
        if self.finished {
            (0, Some(0))
        } else {
            let rest_len = self.unparsed.len() - self.position;
            proof {
                let rest = self.unparsed@.subrange(
                    self.position as int,
                    self.unparsed@.len() as int,
                );
                lemma_split_on(rest, PATH_SEPARATOR);
                lemma_split_on_len(rest, PATH_SEPARATOR);
            }
            (1, rest_len.checked_add(1))
        }
    }

    /// All entries that are still to come.
    pub fn collect(self) -> (paths: Vec<Vec<u8>>)
        requires
            self.wf(),
        ensures
            views(paths@) == self@,
    {
        let mut this = self;
        let mut paths: Vec<Vec<u8>> = Vec::new();
        loop
            invariant
                this.wf(),
                views(paths@) + this@ == self@,
            ensures
                views(paths@) == self@,
            decreases this@.len(),
        {
            let ghost before = views(paths@);
            let ghost pending = this@;
            match this.next() {
                Some(path) => {
                    paths.push(path);
                    assert(views(paths@) =~= before.push(pending[0]));
                    assert(before.push(pending[0]) + pending.drop_first() =~= before + pending);
                },
                None => {
                    assert(before + pending =~= before);
                    break ;
                },
            }
        }
        paths
    }
}

/// A list has at most one entry more than it has bytes.
proof fn lemma_split_on_len(unparsed: Seq<u8>, sep: u8)
    ensures
        split_on(unparsed, sep).len() <= unparsed.len() + 1,
    decreases unparsed.len(),
{
    lemma_first_index_of(unparsed, sep);
    match first_index_of(unparsed, sep) {
        None => {},
        Some(i) => {
            lemma_split_on_len(unparsed.subrange(i + 1, unparsed.len() as int), sep);
        },
    }
}

/// Splits a list of paths at each separator, a colon.
pub fn split_paths<'a>(unparsed: &'a [u8]) -> (paths: SplitPaths<'a>)
    ensures
        paths.wf(),
        paths@ == split_on(unparsed@, PATH_SEPARATOR),
{
    assert(unparsed@.subrange(0, unparsed@.len() as int) =~= unparsed@);
    SplitPaths { unparsed, position: 0, finished: false }
}

/// The error of `join_paths`: an entry holds the separator.
#[derive(Clone, Copy, Debug, PartialEq, Eq, Structural)]
pub struct JoinPathsError {}

impl JoinPathsError {
    /// What the error says.
    pub fn description(&self) -> (text: &'static str)
        ensures
            text@ == "path segment contains separator `:`"@,
    {
        "path segment contains separator `:`"
    }
}

/// Joins paths into one list, with a colon between each two of them. Fails
/// when a path holds a colon, since splitting could not give it back.
pub fn join_paths(paths: &Vec<Vec<u8>>) -> (r: Result<Vec<u8>, JoinPathsError>)
    ensures
        match r {
            Ok(joined) => no_separator(views(paths@), PATH_SEPARATOR) && joined@ == join_with(
                views(paths@),
                PATH_SEPARATOR,
            ),
            Err(_) => !no_separator(views(paths@), PATH_SEPARATOR),
        },
{
    let mut joined: Vec<u8> = Vec::new();
    let ghost all = views(paths@);
    let mut i: usize = 0;
    while i < paths.len()
        invariant
            i <= paths.len(),
            all == views(paths@),
            no_separator(all.take(i as int), PATH_SEPARATOR),
            joined@ == join_with(all.take(i as int), PATH_SEPARATOR),
        decreases paths.len() - i,
    {
        let path = paths[i].as_slice();
        if i > 0 {
            joined.push(PATH_SEPARATOR);
        }
        match memchr(PATH_SEPARATOR, path) {
            Some(at) => {
                assert(all[i as int][at as int] == PATH_SEPARATOR);
                return Err(JoinPathsError {  });
            },
            None => {},
        }
        append_bytes(&mut joined, path);
        proof {
            lemma_join_push(all.take(i as int), all[i as int], PATH_SEPARATOR);
            assert(all.take(i as int).push(all[i as int]) =~= all.take(i + 1));
            assert(no_separator(all.take(i + 1), PATH_SEPARATOR)) by {
                assert forall|a: int, b: int|
                    0 <= a < all.take(i + 1).len() && 0 <= b < all.take(i + 1)[a].len() implies 
                #[trigger] all.take(i + 1)[a][b] != PATH_SEPARATOR by {
                    if a < i {
                        assert(all.take(i as int)[a][b] != PATH_SEPARATOR);
                    }
                }
            }
        }
        i += 1;
    }
    assert(all.take(i as int) =~= all);
    Ok(joined)
}

/// The error of `var`.
#[derive(Debug, PartialEq, Eq, Clone)]
pub enum VarError {
    /// The variable is not set.
    NotPresent,
    /// The variable is set to bytes that are not UTF-8: the bytes, as they
    /// were found.
    NotUnicode(Vec<u8>),
}

impl VarError {
    /// What the error says, without the bytes.
    pub fn description(&self) -> (text: &'static str)
        ensures
            text@ == match self {
                VarError::NotPresent => "environment variable not found"@,
                VarError::NotUnicode(_) => "environment variable was not valid unicode"@,
            },
    {
        match *self {
            VarError::NotPresent => "environment variable not found",
            VarError::NotUnicode(..) => "environment variable was not valid unicode",
        }
    }
}

/// The error for a name or a value that holds a zero byte.
pub open spec fn is_nul_error(e: Error) -> bool {
    e.is_const(ErrorKind::InvalidInput, "data provided contains a nul byte"@)
}

/// The error for a name that is empty or holds an equals sign.
pub open spec fn is_name_error(e: Error) -> bool {
    e.is_const(ErrorKind::InvalidInput, "invalid environment variable name"@)
}

/// `key` can name a variable that is set or removed: it is not empty and
/// holds neither a zero byte nor an equals sign.
pub open spec fn is_settable_name(key: Seq<u8>) -> bool {
    &&& key.len() > 0
    &&& no_nul(key)
    &&& forall|i: int| 0 <= i < key.len() ==> key[i] != 61
}

/// Copies bytes into a C string, or says that they hold a zero byte.
fn to_c_string(bytes: &[u8]) -> (r: Result<CString, Error>)
    ensures
        match r {
            Ok(c) => no_nul(bytes@) && c.wf() && c@ == bytes@,
            Err(e) => !no_nul(bytes@) && is_nul_error(e),
        },
{
    proof {
        lemma_first_index_of(bytes@, 0);
    }
    match CString::new(vstd::slice::slice_to_vec(bytes)) {
        Ok(c) => Ok(c),
        Err(_) => Err(
            Error::new_const(ErrorKind::InvalidInput, "data provided contains a nul byte"),
        ),
    }
}

/// Looks a variable up. A name that holds a zero byte is refused here,
/// with an error of kind `InvalidInput`, and nothing crosses to the host.
/// Else `getenv` makes the one crossing, with the name as a C string, and
/// its outcome is what the caller sees: the value, `None` for a variable
/// that is not set, or the error that stands for a failed crossing.
pub fn var_os<G>(key: &[u8], getenv: G) -> (r: Result<Option<Vec<u8>>, Error>) where
    G: FnOnce(&CString) -> Result<Option<Vec<u8>>, BoundaryError>,

    requires
        forall|name: &CString| name.wf() && name@ == key@ ==> call_requires(getenv, (name,)),
    ensures
        !no_nul(key@) ==> (r matches Err(e) && is_nul_error(e)),
        no_nul(key@) ==> exists|name: &CString, reply: Result<Option<Vec<u8>>, BoundaryError>|
            {
                &&& name.wf() && name@ == key@
                &&& #[trigger] call_ensures(getenv, (name,), reply)
                &&& is_surfaced(reply, r)
            },
{
    let name = match to_c_string(key) {
        Ok(name) => name,
        Err(e) => {
            return Err(e);
        },
    };
    let reply = getenv(&name);
    assert(call_ensures(getenv, (&name,), reply));
    surface(reply)
}

/// The text of a variable, from what a lookup found: `NotPresent` where it
/// found nothing, the decoded text where the value is UTF-8, and else
/// `NotUnicode` with the value as it was found.
pub fn var(found: Option<Vec<u8>>) -> (r: Result<String, VarError>)
    ensures
        match found {
            None => r == Err::<String, VarError>(VarError::NotPresent),
            Some(value) => if valid_utf8(value@) {
                r matches Ok(text) && text@ == decode_utf8(value@)
            } else {
                r matches Err(VarError::NotUnicode(bytes)) && bytes@ == value@
            },
        },
{
    match found {
        Some(value) => match string_from_utf8(value) {
            Ok(text) => Ok(text),
            Err((bytes, _)) => Err(VarError::NotUnicode(bytes)),
        },
        None => Err(VarError::NotPresent),
    }
}

/// Checks the name of a variable that is to be set or removed.
fn check_name(key: &[u8]) -> (r: Result<CString, Error>)
    ensures
        match r {
            Ok(c) => is_settable_name(key@) && c.wf() && c@ == key@,
            Err(e) => !is_settable_name(key@) && if no_nul(key@) {
                is_name_error(e)
            } else {
                is_nul_error(e)
            },
        },
{
    let name = match to_c_string(key) {
        Ok(name) => name,
        Err(e) => {
            return Err(e);
        },
    };
    if key.len() == 0 || memchr(61, key).is_some() {
        return Err(Error::new_const(ErrorKind::InvalidInput, "invalid environment variable name"));
    }
    Ok(name)
}

/// Sets a variable. The name must not be empty nor hold an equals sign or
/// a zero byte, and the value must hold no zero byte: else the call fails
/// with an error of kind `InvalidInput` and nothing crosses to the host.
/// Else `setenv` makes the one crossing, with both as C strings, and its
/// outcome is what the caller sees.
pub fn set_var<S>(key: &[u8], value: &[u8], setenv: S) -> (r: Result<(), Error>) where
    S: FnOnce(&CString, &CString) -> Result<(), BoundaryError>,

    requires
        forall|name: &CString, text: &CString|
            name.wf() && name@ == key@ && text.wf() && text@ == value@ ==> call_requires(
                setenv,
                (name, text),
            ),
    ensures
        !no_nul(key@) ==> (r matches Err(e) && is_nul_error(e)),
        no_nul(key@) && !is_settable_name(key@) ==> (r matches Err(e) && is_name_error(e)),
        is_settable_name(key@) && !no_nul(value@) ==> (r matches Err(e) && is_nul_error(e)),
        is_settable_name(key@) && no_nul(value@) ==> exists|
            name: &CString,
            text: &CString,
            reply: Result<(), BoundaryError>,
        |
            {
                &&& name.wf() && name@ == key@
                &&& text.wf() && text@ == value@
                &&& #[trigger] call_ensures(setenv, (name, text), reply)
                &&& is_surfaced(reply, r)
            },
{
    let name = match check_name(key) {
        Ok(name) => name,
        Err(e) => {
            return Err(e);
        },
    };
    let text = match to_c_string(value) {
        Ok(text) => text,
        Err(e) => {
            return Err(e);
        },
    };
    let reply = setenv(&name, &text);
    assert(call_ensures(setenv, (&name, &text), reply));
    surface(reply)
}

/// Removes a variable. The name is checked as `set_var` checks it; then
/// `unsetenv` makes the one crossing, with the name as a C string, and its
/// outcome is what the caller sees.
pub fn remove_var<U>(key: &[u8], unsetenv: U) -> (r: Result<(), Error>) where
    U: FnOnce(&CString) -> Result<(), BoundaryError>,

    requires
        forall|name: &CString| name.wf() && name@ == key@ ==> call_requires(unsetenv, (name,)),
    ensures
        !no_nul(key@) ==> (r matches Err(e) && is_nul_error(e)),
        no_nul(key@) && !is_settable_name(key@) ==> (r matches Err(e) && is_name_error(e)),
        is_settable_name(key@) ==> exists|name: &CString, reply: Result<(), BoundaryError>|
            {
                &&& name.wf() && name@ == key@
                &&& #[trigger] call_ensures(unsetenv, (name,), reply)
                &&& is_surfaced(reply, r)
            },
{
    let name = match check_name(key) {
        Ok(name) => name,
        Err(e) => {
            return Err(e);
        },
    };
    let reply = unsetenv(&name);
    assert(call_ensures(unsetenv, (&name,), reply));
    surface(reply)
}

/// The name and the value of one entry of the environment as the host
/// hands it over, `NAME=value`. The name ends at the first equals sign
/// that is not the first byte, so that a name is never empty but may begin
/// with an equals sign. An entry without such a sign is malformed.
pub open spec fn parse_entry(input: Seq<u8>) -> Option<(Seq<u8>, Seq<u8>)> {
    if input.len() == 0 {
        None
    } else {
        match first_index_of(input.subrange(1, input.len() as int), 61) {
            None => None,
            Some(p) => Some(
                (input.subrange(0, p + 1), input.subrange(p + 2, input.len() as int)),
            ),
        }
    }
}

/// The variables that the entries of an environment define, in the order
/// of the entries. Malformed entries are left out.
pub open spec fn snapshot_of(environ: Seq<Seq<u8>>) -> Seq<(Seq<u8>, Seq<u8>)>
    decreases environ.len(),
{
    if environ.len() == 0 {
        Seq::empty()
    } else {
        let rest = snapshot_of(environ.drop_first());
        match parse_entry(environ[0]) {
            Some(pair) => seq![pair] + rest,
            None => rest,
        }
    }
}

fn parse(input: &[u8]) -> (r: Option<(Vec<u8>, Vec<u8>)>)
    ensures
        match r {
            Some((name, value)) => parse_entry(input@) == Some((name@, value@)),
            None => parse_entry(input@).is_none(),
        },
{
    if input.len() == 0 {
        return None;
    }
    let tail = vstd::slice::slice_subrange(input, 1, input.len());
    match memchr(61, tail) {
        Some(p) => {
            let name = vstd::slice::slice_to_vec(vstd::slice::slice_subrange(input, 0, p + 1));
            let value = vstd::slice::slice_to_vec(
                vstd::slice::slice_subrange(input, p + 2, input.len()),
            );
            Some((name, value))
        },
        None => None,
    }
}

/// A snapshot of the variables of the environment, taken once. Handing
/// them out touches nothing but the snapshot.
#[derive(Clone, Debug)]
pub struct VarsOs {
    pending: Vec<(Vec<u8>, Vec<u8>)>,
}

impl View for VarsOs {
    type V = Seq<(Seq<u8>, Seq<u8>)>;

    /// The variables that are still to come, in their order.
    closed spec fn view(&self) -> Seq<(Seq<u8>, Seq<u8>)> {
        Seq::new(
            self.pending@.len(),
            |i: int|
                (
                    self.pending@[self.pending@.len() - 1 - i].0@,
                    self.pending@[self.pending@.len() - 1 - i].1@,
                ),
        )
    }
}

impl VarsOs {
    /// The next variable, or `None` when every variable has been handed
    /// out.
    pub fn next(&mut self) -> (entry: Option<(Vec<u8>, Vec<u8>)>)
        ensures
            match entry {
                Some((name, value)) => old(self)@.len() > 0 && (name@, value@) == old(self)@[0]
                    && final(self)@ == old(self)@.drop_first(),
                None => old(self)@.len() == 0 && final(self)@ == old(self)@,
            },
    {
        let entry = self.pending.pop();
        proof {
            if entry.is_some() {
                assert(self@ =~= old(self)@.drop_first());
            }
        }
        entry
    }

    /// How many variables are still to come, as a lower and an upper
    /// bound.
    pub fn size_hint(&self) -> (bounds: (usize, Option<usize>))
        ensures
            bounds.0 == self@.len(),
            bounds.1 == Some(bounds.0),
    {
        let n = self.pending.len();
        (n, Some(n))
    }
}

/// Takes a snapshot of the environment from the entries that the host
/// handed over, each of the form `NAME=value`. Entries that are not of
/// that form are left out.
pub fn vars_os(environ: &Vec<Vec<u8>>) -> (vars: VarsOs)
    ensures
        vars@ == snapshot_of(views(environ@)),
{
    let ghost all = views(environ@);
    let mut pending: Vec<(Vec<u8>, Vec<u8>)> = Vec::new();
    let mut i: usize = environ.len();
    assert(all.skip(i as int) =~= Seq::empty());
    while i > 0
        invariant
            i <= environ.len(),
            all == views(environ@),
            (VarsOs { pending })@ == snapshot_of(all.skip(i as int)),
        decreases i,
    {
        i -= 1;
        let ghost before = (VarsOs { pending })@;
        proof {
            assert(all.skip(i as int).drop_first() =~= all.skip(i + 1));
            assert(all.skip(i as int)[0] == environ@[i as int]@);
        }
        match parse(environ[i].as_slice()) {
            Some(pair) => {
                let ghost entry = (pair.0@, pair.1@);
                pending.push(pair);
                assert((VarsOs { pending })@ =~= seq![entry] + before);
            },
            None => {},
        }
    }
    assert(all.skip(0) =~= all);
    VarsOs { pending }
}

/// A snapshot of the variables of the environment, handed out as text.
#[derive(Clone, Debug)]
pub struct Vars {
    inner: VarsOs,
}

impl View for Vars {
    type V = Seq<(Seq<u8>, Seq<u8>)>;

    /// The variables that are still to come, as bytes and in their order.
    closed spec fn view(&self) -> Seq<(Seq<u8>, Seq<u8>)> {
        self.inner@
    }
}

impl Vars {
    /// The variable that comes next, if there is one, has a name and a
    /// value that are both UTF-8.
    pub open spec fn spec_next_is_unicode(&self) -> bool {
        self@.len() > 0 ==> valid_utf8(self@[0].0) && valid_utf8(self@[0].1)
    }

    /// Whether `next` can hand out the variable that comes next.
    #[verifier::when_used_as_spec(spec_next_is_unicode)]
    pub fn next_is_unicode(&self) -> (unicode: bool)
        ensures
            unicode == self.spec_next_is_unicode(),
    {
        let n = self.inner.pending.len();
        if n == 0 {
            return true;
        }
        let entry = &self.inner.pending[n - 1];
        assert(self@[0] == (entry.0@, entry.1@));
        str_from_utf8(entry.0.as_slice()).is_ok() && str_from_utf8(entry.1.as_slice()).is_ok()
    }

    /// The next variable as text, or `None` when every variable has been
    /// handed out. The variable must be UTF-8 in name and value.
    pub fn next(&mut self) -> (entry: Option<(String, String)>)
        requires
            old(self).spec_next_is_unicode(),
        ensures
            match entry {
                Some((name, value)) => {
                    &&& old(self)@.len() > 0
                    &&& name@ == decode_utf8(old(self)@[0].0)
                    &&& value@ == decode_utf8(old(self)@[0].1)
                    &&& final(self)@ == old(self)@.drop_first()
                },
                None => old(self)@.len() == 0 && final(self)@ == old(self)@,
            },
    {
        match self.inner.next() {
            Some((name, value)) => {
                let name = match string_from_utf8(name) {
                    Ok(text) => text,
                    Err(_) => unreached(),
                };
                let value = match string_from_utf8(value) {
                    Ok(text) => text,
                    Err(_) => unreached(),
                };
                Some((name, value))
            },
            None => None,
        }
    }

    /// How many variables are still to come, as a lower and an upper
    /// bound.
    pub fn size_hint(&self) -> (bounds: (usize, Option<usize>))
        ensures
            bounds.0 == self@.len(),
            bounds.1 == Some(bounds.0),
    {
        self.inner.size_hint()
    }
}

/// Takes a snapshot of the environment, as `vars_os` does, to hand its
/// variables out as text.
pub fn vars(environ: &Vec<Vec<u8>>) -> (vars: Vars)
    ensures
        vars@ == snapshot_of(views(environ@)),
{
    Vars { inner: vars_os(environ) }
}

} // verus!
