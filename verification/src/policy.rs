//! What a guest is given: the policy, and the context that is made of it and of the host.
use crate::path;
use crate::path::{HostPath, PathKind, PathModel};
use crate::text;
use crate::text::{char_list, from_utf8_lossy, same_text, split, trim_range};
use crate::wasi_ctx;
use crate::wasi_ctx::{FdEntry, PreopenDir, WasiProcMacroCtx};
use vstd::prelude::*;
use vstd::string::StrSliceExecFns;

verus! {

/// The variable that lists the directories for a guest without a policy.
pub const PREOPENS_ENV: &'static str = "RUSTC_WATT_PREOPENS";

/// The variable that replaces random numbers by zeros for a guest without a policy.
pub const DETERMINISTIC_RANDOM_ENV: &'static str = "RUSTC_WATT_DETERMINISTIC_RANDOM";

/// A directory that a policy gives to a guest.
#[derive(Debug)]
pub struct WasiPreopenDir {
    pub path: Vec<u8>,
    /// How a Windows host reads the path; none where only slashes mean anything in it.
    pub windows: Option<HostPath>,
    /// The name by which the guest knows it; the path where there is none.
    pub guest_path: Option<Vec<u8>>,
    pub writable: bool,
}

/// What a guest is given.
#[derive(Debug)]
pub struct WasiPolicy {
    pub inherit_args: bool,
    pub inherit_env: bool,
    /// The variables that are inherited; all of them where the list is empty.
    pub env_allowlist: Vec<String>,
    pub preopens: Vec<WasiPreopenDir>,
    /// Whether the host prints what the guest prints.
    pub mirror_stdio: bool,
    /// Whether random numbers and clocks are replaced by zeros.
    pub deterministic_random: bool,
}

impl WasiPolicy {
    /// A guest that is given what the host has, except for directories.
    pub fn native_like() -> (policy: WasiPolicy)
        ensures
            policy.inherit_args,
            policy.inherit_env,
            policy.env_allowlist@.len() == 0,
            policy.preopens@.len() == 0,
            policy.mirror_stdio,
            !policy.deterministic_random,
    {
        WasiPolicy {
            inherit_args: true,
            inherit_env: true,
            env_allowlist: Vec::new(),
            preopens: Vec::new(),
            mirror_stdio: true,
            deterministic_random: false,
        }
    }
}

/// A variable of the host's environment.
#[derive(Debug)]
pub struct HostVar {
    pub name: Vec<u8>,
    pub value: Vec<u8>,
}

/// The directory that the host works in, and where it leads if it is a directory.
#[derive(Debug)]
pub struct CurrentDir {
    pub path: Vec<u8>,
    pub canonical: Option<HostPath>,
}

/// What the host has to give.
#[derive(Debug)]
pub struct HostEnv {
    pub args: Vec<Vec<u8>>,
    pub vars: Vec<HostVar>,
    /// The value of [`PREOPENS_ENV`], where it is set to UTF-8.
    pub preopens_var: Option<String>,
    /// The value of [`DETERMINISTIC_RANDOM_ENV`], where it is set to UTF-8.
    pub random_var: Option<String>,
    pub current_dir: Option<CurrentDir>,
}

/// A text of the host as UTF-8.
pub open spec fn lossy(bytes: Seq<u8>) -> Seq<u8> {
    vstd::utf8::encode_utf8(text::utf8_lossy(bytes))
}

/// An argument as the guest gets it.
pub open spec fn arg_entry(arg: Seq<u8>) -> Seq<u8> {
    lossy(arg).push(0)
}

/// A variable as the guest gets it.
pub open spec fn var_entry(var: HostVar) -> Seq<u8> {
    lossy(var.name@).push(61) + lossy(var.value@).push(0)
}

/// Whether a variable is inherited.
pub open spec fn allowed(allowlist: Option<Seq<Seq<char>>>, name: Seq<u8>) -> bool {
    match allowlist {
        None => true,
        Some(list) => list.len() == 0 || list.contains(text::utf8_lossy(name)),
    }
}

/// The environment as the guest gets it.
pub open spec fn env_entries(vars: Seq<HostVar>, allowlist: Option<Seq<Seq<char>>>) -> Seq<Seq<u8>>
    decreases vars.len(),
{
    if vars.len() == 0 {
        Seq::empty()
    } else {
        let before = env_entries(vars.drop_last(), allowlist);
        if allowed(allowlist, vars.last().name@) {
            before.push(var_entry(vars.last()))
        } else {
            before
        }
    }
}

/// A text of the host as UTF-8.
fn lossy_bytes(bytes: &Vec<u8>) -> (out: Vec<u8>)
    ensures
        out@ == lossy(bytes@),
{
    from_utf8_lossy(bytes.as_slice()).as_str().as_bytes_vec()
}

/// The arguments as the guest gets them.
pub fn collect_args_entries(args: &Vec<Vec<u8>>) -> (entries: Vec<Vec<u8>>)
    ensures
        entries@.len() == args@.len(),
        forall|i: int| 0 <= i < args@.len() ==> (#[trigger] entries@[i])@ == arg_entry(args@[i]@),
{
    let mut entries: Vec<Vec<u8>> = Vec::new();
    let mut i: usize = 0;
    while i < args.len()
        invariant
            i <= args@.len(),
            entries@.len() == i,
            forall|j: int| 0 <= j < i ==> (#[trigger] entries@[j])@ == arg_entry(args@[j]@),
        decreases args@.len() - i,
    {
        let mut bytes: Vec<u8> = lossy_bytes(&args[i]);
        bytes.push(0);
        entries.push(bytes);
        i += 1;
    }
    entries
}

/// Whether a list holds a text.
fn holds(list: &Vec<String>, wanted: &str) -> (yes: bool)
    ensures
        yes == text::texts(list@).contains(wanted@),
{
    let mut i: usize = 0;
    while i < list.len()
        invariant
            i <= list@.len(),
            forall|j: int| 0 <= j < i ==> (#[trigger] text::texts(list@)[j]) != wanted@,
        decreases list@.len() - i,
    {
        if same_text(list[i].as_str(), wanted) {
            assert(text::texts(list@)[i as int] == wanted@);
            return true;
        }
        i += 1;
    }
    false
}

/// What an allowlist says.
pub open spec fn allowlist_model(allowlist: Option<&Vec<String>>) -> Option<Seq<Seq<char>>> {
    match allowlist {
        Some(list) => Some(text::texts(list@)),
        None => None,
    }
}

/// The environment as the guest gets it.
pub fn collect_env_entries(vars: &Vec<HostVar>, allowlist: Option<&Vec<String>>) -> (entries: Vec<
    Vec<u8>,
>)
    ensures
        crate::memory::byte_seqs(entries@) == env_entries(vars@, allowlist_model(allowlist)),
{
    let mut entries: Vec<Vec<u8>> = Vec::new();
    let ghost list = allowlist_model(allowlist);
    let mut i: usize = 0;
    assert(vars@.take(0) =~= Seq::<HostVar>::empty());
    assert(crate::memory::byte_seqs(entries@) =~= Seq::<Seq<u8>>::empty());
    while i < vars.len()
        invariant
            i <= vars@.len(),
            list == allowlist_model(allowlist),
            crate::memory::byte_seqs(entries@) == env_entries(vars@.take(i as int), list),
        decreases vars@.len() - i,
    {
        let var: &HostVar = &vars[i];
        proof {
            assert(vars@.take(i + 1).drop_last() =~= vars@.take(i as int));
            assert(vars@.take(i + 1).last() == *var);
        }
        let take: bool = match allowlist {
            None => true,
            Some(names) => names.len() == 0 || holds(
                names,
                from_utf8_lossy(var.name.as_slice()).as_str(),
            ),
        };
        if take {
            let ghost before = crate::memory::byte_seqs(entries@);
            let mut bytes: Vec<u8> = lossy_bytes(&var.name);
            bytes.push(61);
            let mut value: Vec<u8> = lossy_bytes(&var.value);
            bytes.append(&mut value);
            bytes.push(0);
            assert(bytes@ =~= var_entry(*var));
            entries.push(bytes);
            assert(crate::memory::byte_seqs(entries@) =~= before.push(bytes@));
        }
        i += 1;
    }
    assert(vars@.take(i as int) =~= vars@);
    entries
}

/// Without an allowlist, and with an empty one, the environment is the same.
pub proof fn law_empty_allowlist_allows_all(vars: Seq<HostVar>)
    ensures
        env_entries(vars, Some(Seq::<Seq<char>>::empty())) == env_entries(vars, None),
        env_entries(vars, None) == Seq::new(vars.len(), |i: int| var_entry(vars[i])),
    decreases vars.len(),
{
    if vars.len() > 0 {
        law_empty_allowlist_allows_all(vars.drop_last());
        assert(env_entries(vars, None) =~= Seq::new(vars.len(), |i: int| var_entry(vars[i])));
    } else {
        assert(env_entries(vars, None) =~= Seq::new(vars.len(), |i: int| var_entry(vars[i])));
    }
}

/// With an allowlist that is not empty, each variable that is inherited is on it.
pub proof fn law_allowlist_is_kept(vars: Seq<HostVar>, allowlist: Seq<Seq<char>>, entry: Seq<u8>)
    requires
        allowlist.len() > 0,
        env_entries(vars, Some(allowlist)).contains(entry),
    ensures
        exists|i: int|
            0 <= i < vars.len() && var_entry(#[trigger] vars[i]) == entry && allowlist.contains(
                text::utf8_lossy(vars[i].name@),
            ),
    decreases vars.len(),
{
    let all = env_entries(vars, Some(allowlist));
    let k = choose|k: int| 0 <= k < all.len() && all[k] == entry;
    let shorter = vars.drop_last();
    let before = env_entries(shorter, Some(allowlist));
    if k < before.len() {
        assert(before[k] == entry);
        law_allowlist_is_kept(shorter, allowlist, entry);
        let i = choose|i: int|
            0 <= i < shorter.len() && var_entry(#[trigger] shorter[i]) == entry
                && allowlist.contains(text::utf8_lossy(shorter[i].name@));
        assert(vars[i] == shorter[i]);
    } else {
        assert(vars[vars.len() - 1] == vars.last());
    }
}

/// What an entry of [`PREOPENS_ENV`] asks for: a path, and whether it may be written to.
pub open spec fn preopen_spec(entry: Seq<char>) -> Option<(Seq<char>, bool)> {
    let trimmed = text::trimmed(entry);
    if trimmed.len() == 0 {
        None
    } else if has_suffix(trimmed, ":rw"@) {
        Some((text::trimmed(trimmed.take(trimmed.len() - 3)), true))
    } else if has_suffix(trimmed, ":ro"@) {
        Some((text::trimmed(trimmed.take(trimmed.len() - 3)), false))
    } else {
        Some((trimmed, false))
    }
}

/// Whether `s` ends with `suffix`.
pub open spec fn has_suffix(s: Seq<char>, suffix: Seq<char>) -> bool {
    suffix.len() <= s.len() && s.skip(s.len() - suffix.len()) == suffix
}

/// What a parsed entry says.
pub open spec fn spec_model(parsed: Option<(String, bool)>) -> Option<(Seq<char>, bool)> {
    match parsed {
        Some((path, writable)) => Some((path@, writable)),
        None => None,
    }
}

/// What an entry of [`PREOPENS_ENV`] asks for.
pub fn parse_preopen_spec(spec_text: &str) -> (parsed: Option<(String, bool)>)
    ensures
        spec_model(parsed) == preopen_spec(spec_text@),
{
    let chars: Vec<char> = char_list(spec_text);
    let (lo, hi): (usize, usize) = trim_range(&chars, 0, chars.len());
    let ghost trimmed = text::trimmed(spec_text@);
    proof {
        assert(spec_text@.subrange(0, spec_text@.len() as int) =~= spec_text@);
        assert(trimmed == chars@.subrange(lo as int, hi as int));
        reveal_strlit(":rw");
        reveal_strlit(":ro");
    }
    if lo == hi {
        return None;
    }
    if hi - lo >= 3 && chars[hi - 3] == ':' && chars[hi - 2] == 'r' {
        proof {
            let tail = trimmed.skip(trimmed.len() - 3);
            assert(trimmed.take(trimmed.len() - 3) =~= chars@.subrange(lo as int, hi - 3));
            assert(tail =~= seq![chars@[hi - 3], chars@[hi - 2], chars@[hi - 1]]);
            assert(":rw"@ =~= seq![':', 'r', 'w']);
            assert(":ro"@ =~= seq![':', 'r', 'o']);
            assert(tail[2] == chars@[hi - 1]);
        }
        if chars[hi - 1] == 'w' || chars[hi - 1] == 'o' {
            let (a, b): (usize, usize) = trim_range(&chars, lo, hi - 3);
            return Some((spec_text.substring_char(a, b).to_owned(), chars[hi - 1] == 'w'));
        }
    } else {
        proof {
            if trimmed.len() >= 3 {
                let tail = trimmed.skip(trimmed.len() - 3);
                assert(tail[0] == chars@[hi - 3]);
                assert(tail[1] == chars@[hi - 2]);
            }
        }
    }
    Some((spec_text.substring_char(lo, hi).to_owned(), false))
}

/// What a list of directories asks for, entry by entry.
pub open spec fn specs_of(entries: Seq<Seq<char>>) -> Seq<(Seq<char>, bool)>
    decreases entries.len(),
{
    if entries.len() == 0 {
        Seq::empty()
    } else {
        let before = specs_of(entries.drop_last());
        match preopen_spec(entries.last()) {
            Some(wanted) => before.push(wanted),
            None => before,
        }
    }
}

/// The directories that [`PREOPENS_ENV`] asks for.
pub open spec fn requested(var: Option<Seq<char>>) -> Seq<(Seq<char>, bool)> {
    match var {
        Some(raw) => specs_of(text::pieces(raw, ';')),
        None => Seq::empty(),
    }
}

/// The text of a variable, where it is set.
pub open spec fn var_model(var: Option<String>) -> Option<Seq<char>> {
    match var {
        Some(value) => Some(value@),
        None => None,
    }
}

/// What a list of parsed entries says.
pub open spec fn spec_models(list: Seq<(String, bool)>) -> Seq<(Seq<char>, bool)> {
    Seq::new(list.len(), |i: int| (list[i].0@, list[i].1))
}

/// The directories that [`PREOPENS_ENV`] asks for.
pub fn requested_preopens(var: &Option<String>) -> (list: Vec<(String, bool)>)
    ensures
        spec_models(list@) == requested(var_model(*var)),
{
    let mut list: Vec<(String, bool)> = Vec::new();
    assert(spec_models(list@) =~= Seq::<(Seq<char>, bool)>::empty());
    let raw: &String = match var {
        Some(raw) => raw,
        None => return list,
    };
    let entries: Vec<String> = split(raw.as_str(), ';');
    let ghost all = text::texts(entries@);
    let mut i: usize = 0;
    assert(all.take(0) =~= Seq::<Seq<char>>::empty());
    while i < entries.len()
        invariant
            i <= entries@.len(),
            all == text::texts(entries@),
            spec_models(list@) == specs_of(all.take(i as int)),
        decreases entries@.len() - i,
    {
        proof {
            assert(all.take(i + 1).drop_last() =~= all.take(i as int));
            assert(all.take(i + 1).last() == entries@[i as int]@);
        }
        if let Some((path, writable)) = parse_preopen_spec(entries[i].as_str()) {
            let ghost before = spec_models(list@);
            list.push((path, writable));
            assert(spec_models(list@) =~= before.push((path@, writable)));
        }
        i += 1;
    }
    assert(all.take(i as int) =~= all);
    list
}

/// What a directory for a guest is.
pub struct PreopenModel {
    pub root: PathModel,
    pub guest_path: Seq<char>,
    pub writable: bool,
}

impl View for PreopenDir {
    type V = PreopenModel;

    open spec fn view(&self) -> PreopenModel {
        PreopenModel {
            root: self.root@,
            guest_path: self.guest_path@,
            writable: self.writable,
        }
    }
}

/// What a list of directories for a guest is.
pub open spec fn preopen_models(list: Seq<PreopenDir>) -> Seq<PreopenModel> {
    Seq::new(list.len(), |i: int| list[i]@)
}

/// Where paths lead that the host has looked at: nowhere where they lead to no directory.
pub open spec fn path_models(list: Seq<Option<HostPath>>) -> Seq<Option<PathModel>> {
    Seq::new(
        list.len(),
        |i: int|
            match list[i] {
                Some(found) => Some(found@),
                None => None,
            },
    )
}

/// The directories among those asked for. `canons` says where each path leads.
pub open spec fn found_preopens(
    wanted: Seq<(Seq<char>, bool)>,
    canons: Seq<Option<PathModel>>,
) -> Seq<PreopenModel>
    decreases wanted.len(),
{
    if wanted.len() == 0 {
        Seq::empty()
    } else {
        let before = found_preopens(wanted.drop_last(), canons);
        match canons[wanted.len() - 1] {
            Some(root) => before.push(
                PreopenModel {
                    root,
                    guest_path: wanted.last().0,
                    writable: wanted.last().1,
                },
            ),
            None => before,
        }
    }
}

/// The directory for a guest that has no other: the one that the host works in.
pub open spec fn fallback(current_dir: Option<CurrentDir>) -> Seq<PreopenModel> {
    match current_dir {
        Some(CurrentDir { path, canonical: Some(root) }) => seq![
            PreopenModel { root: root@, guest_path: text::utf8_lossy(path@), writable: true },
        ],
        _ => Seq::empty(),
    }
}

/// The directories for a guest without a policy: those that [`PREOPENS_ENV`] asks for, as far as
/// they are directories, and the one that the host works in where there is none.
pub open spec fn host_preopens(host: &HostEnv, canons: Seq<Option<PathModel>>) -> Seq<
    PreopenModel,
> {
    let found = found_preopens(requested(var_model(host.preopens_var)), canons);
    if found.len() == 0 {
        fallback(host.current_dir)
    } else {
        found
    }
}

/// The directories for a guest without a policy.
pub fn preopens_from_host(host: &HostEnv, canons: &Vec<Option<HostPath>>) -> (list: Vec<PreopenDir>)
    requires
        canons@.len() == requested(var_model(host.preopens_var)).len(),
    ensures
        preopen_models(list@) == host_preopens(host, path_models(canons@)),
{
    let wanted: Vec<(String, bool)> = requested_preopens(&host.preopens_var);
    let ghost specs = spec_models(wanted@);
    let ghost found = path_models(canons@);
    let mut list: Vec<PreopenDir> = Vec::new();
    let mut i: usize = 0;
    assert(specs.take(0) =~= Seq::<(Seq<char>, bool)>::empty());
    assert(preopen_models(list@) =~= Seq::<PreopenModel>::empty());
    while i < wanted.len()
        invariant
            i <= wanted@.len(),
            wanted@.len() == canons@.len(),
            specs == spec_models(wanted@),
            found == path_models(canons@),
            preopen_models(list@) == found_preopens(specs.take(i as int), found),
        decreases wanted@.len() - i,
    {
        proof {
            assert(specs.take(i + 1).drop_last() =~= specs.take(i as int));
            assert(specs.take(i + 1).last() == (wanted@[i as int].0@, wanted@[i as int].1));
        }
        if let Some(root) = &canons[i] {
            let ghost before = preopen_models(list@);
            let dir = PreopenDir {
                root: root.duplicate(),
                guest_path: wanted[i].0.as_str().to_owned(),
                writable: wanted[i].1,
            };
            list.push(dir);
            assert(preopen_models(list@) =~= before.push(dir@));
        }
        i += 1;
    }
    assert(specs.take(i as int) =~= specs);
    if list.len() == 0 {
        if let Some(dir) = &host.current_dir {
            if let Some(root) = &dir.canonical {
                list.push(
                    PreopenDir {
                        root: root.duplicate(),
                        guest_path: from_utf8_lossy(dir.path.as_slice()),
                        writable: true,
                    },
                );
            }
        }
        assert(preopen_models(list@) =~= fallback(host.current_dir));
    }
    list
}

/// The name by which a guest knows a directory of a policy.
pub open spec fn guest_name(entry: WasiPreopenDir) -> Seq<char> {
    text::utf8_lossy(
        match entry.guest_path {
            Some(name) => name@,
            None => entry.path@,
        },
    )
}

/// The path of a directory of a policy, before the host looks at it.
pub open spec fn read_path(entry: WasiPreopenDir) -> PathModel {
    match entry.windows {
        Some(read) => read@,
        None => path::path_of(PathKind::Slash, entry.path@),
    }
}

/// Where a directory of a policy is. The policy is trusted where the host cannot tell: an
/// absolute path stands for itself.
pub open spec fn policy_root(entry: WasiPreopenDir, canon: Option<PathModel>) -> Option<PathModel> {
    match canon {
        Some(root) => Some(root),
        None => if read_path(entry).is_absolute() {
            Some(read_path(entry))
        } else {
            None
        },
    }
}

/// The directories that a policy gives to a guest.
pub open spec fn policy_preopens(
    entries: Seq<WasiPreopenDir>,
    canons: Seq<Option<PathModel>>,
) -> Seq<PreopenModel>
    decreases entries.len(),
{
    if entries.len() == 0 {
        Seq::empty()
    } else {
        let before = policy_preopens(entries.drop_last(), canons);
        let entry = entries.last();
        match policy_root(entry, canons[entries.len() - 1]) {
            Some(root) => before.push(
                PreopenModel { root, guest_path: guest_name(entry), writable: entry.writable },
            ),
            None => before,
        }
    }
}

/// The directories that a policy gives to a guest.
pub fn preopens_from_policy(policy: &WasiPolicy, canons: &Vec<Option<HostPath>>) -> (list: Vec<
    PreopenDir,
>)
    requires
        canons@.len() == policy.preopens@.len(),
    ensures
        preopen_models(list@) == policy_preopens(policy.preopens@, path_models(canons@)),
{
    let ghost entries = policy.preopens@;
    let ghost found = path_models(canons@);
    let mut list: Vec<PreopenDir> = Vec::new();
    let mut i: usize = 0;
    assert(entries.take(0) =~= Seq::<WasiPreopenDir>::empty());
    assert(preopen_models(list@) =~= Seq::<PreopenModel>::empty());
    while i < policy.preopens.len()
        invariant
            i <= entries.len(),
            entries == policy.preopens@,
            entries.len() == canons@.len(),
            found == path_models(canons@),
            preopen_models(list@) == policy_preopens(entries.take(i as int), found),
        decreases entries.len() - i,
    {
        let entry: &WasiPreopenDir = &policy.preopens[i];
        proof {
            assert(entries.take(i + 1).drop_last() =~= entries.take(i as int));
            assert(entries.take(i + 1).last() == *entry);
        }
        let guest_path: String = match &entry.guest_path {
            Some(name) => from_utf8_lossy(name.as_slice()),
            None => from_utf8_lossy(entry.path.as_slice()),
        };
        let ghost before = preopen_models(list@);
        let root: Option<HostPath> = match &canons[i] {
            Some(root) => Some(root.duplicate()),
            None => {
                let read = match &entry.windows {
                    Some(read) => read.duplicate(),
                    None => HostPath::parse(entry.path.as_slice()),
                };
                if read.is_absolute() {
                    Some(read)
                } else {
                    None
                }
            },
        };
        if let Some(root) = root {
            let dir = PreopenDir { root, guest_path, writable: entry.writable };
            list.push(dir);
            assert(preopen_models(list@) =~= before.push(dir@));
        }
        i += 1;
    }
    assert(entries.take(i as int) =~= entries);
    list
}

/// A character with its upper-case ASCII letters made lower-case.
pub open spec fn ascii_lower(c: char) -> char {
    if 'A' <= c <= 'Z' {
        (c as u32 + 32) as char
    } else {
        c
    }
}

/// Whether a value of [`DETERMINISTIC_RANDOM_ENV`] asks for zeros.
pub open spec fn asks_for_zeros(value: Seq<char>) -> bool {
    ||| value == "1"@
    ||| value.len() == 4 && ascii_lower(value[0]) == 't' && ascii_lower(value[1]) == 'r'
        && ascii_lower(value[2]) == 'u' && ascii_lower(value[3]) == 'e'
}

/// Whether a value of [`DETERMINISTIC_RANDOM_ENV`] asks for zeros.
fn wants_zeros(value: &str) -> (yes: bool)
    ensures
        yes == asks_for_zeros(value@),
{
    if same_text(value, "1") {
        return true;
    }
    let chars: Vec<char> = char_list(value);
    chars.len() == 4 && (chars[0] == 't' || chars[0] == 'T') && (chars[1] == 'r' || chars[1] == 'R')
        && (chars[2] == 'u' || chars[2] == 'U') && (chars[3] == 'e' || chars[3] == 'E')
}

/// The paths that the host has to look at before a guest can be given its directories.
pub open spec fn queries(policy: Option<WasiPolicy>, host: &HostEnv) -> Seq<Seq<u8>> {
    match policy {
        Some(policy) => Seq::new(policy.preopens@.len(), |i: int| policy.preopens@[i].path@),
        None => {
            let wanted = requested(var_model(host.preopens_var));
            Seq::new(wanted.len(), |i: int| vstd::utf8::encode_utf8(wanted[i].0))
        },
    }
}

/// The paths that the host has to look at before a guest can be given its directories. For each
/// it has to tell where the path leads, if it leads to a directory.
pub fn preopen_queries(policy: &Option<WasiPolicy>, host: &HostEnv) -> (paths: Vec<Vec<u8>>)
    ensures
        crate::memory::byte_seqs(paths@) == queries(*policy, host),
{
    let mut paths: Vec<Vec<u8>> = Vec::new();
    let mut i: usize = 0;
    match policy {
        Some(policy) => {
            while i < policy.preopens.len()
                invariant
                    i <= policy.preopens@.len(),
                    paths@.len() == i,
                    forall|j: int|
                        0 <= j < i ==> (#[trigger] paths@[j])@ == policy.preopens@[j].path@,
                decreases policy.preopens@.len() - i,
            {
                paths.push(path::copy_name(&policy.preopens[i].path));
                i += 1;
            }
        },
        None => {
            let wanted: Vec<(String, bool)> = requested_preopens(&host.preopens_var);
            while i < wanted.len()
                invariant
                    i <= wanted@.len(),
                    paths@.len() == i,
                    forall|j: int|
                        0 <= j < i ==> (#[trigger] paths@[j])@ == vstd::utf8::encode_utf8(
                            wanted@[j].0@,
                        ),
                decreases wanted@.len() - i,
            {
                paths.push(wanted[i].0.as_str().as_bytes_vec());
                i += 1;
            }
            assert(forall|j: int|
                0 <= j < wanted@.len() ==> spec_models(wanted@)[j].0 == (#[trigger] wanted@[j]).0@);
        },
    }
    assert(crate::memory::byte_seqs(paths@) =~= queries(*policy, host));
    paths
}

/// The arguments that a guest is given.
pub open spec fn given_args(policy: Option<WasiPolicy>, host: &HostEnv) -> Seq<Seq<u8>> {
    if policy matches Some(policy) && !policy.inherit_args {
        Seq::empty()
    } else {
        Seq::new(host.args@.len(), |i: int| arg_entry(host.args@[i]@))
    }
}

/// The environment that a guest is given.
pub open spec fn given_env(policy: Option<WasiPolicy>, host: &HostEnv) -> Seq<Seq<u8>> {
    match policy {
        Some(policy) => if policy.inherit_env {
            env_entries(host.vars@, Some(text::texts(policy.env_allowlist@)))
        } else {
            Seq::empty()
        },
        None => env_entries(host.vars@, None),
    }
}

/// The directories that a guest is given.
pub open spec fn given_preopens(
    policy: Option<WasiPolicy>,
    host: &HostEnv,
    canons: Seq<Option<PathModel>>,
) -> Seq<PreopenModel> {
    match policy {
        Some(policy) => policy_preopens(policy.preopens@, canons),
        None => host_preopens(host, canons),
    }
}

/// Whether random numbers and clocks are replaced by zeros.
pub open spec fn given_zeros(policy: Option<WasiPolicy>, host: &HostEnv) -> bool {
    match policy {
        Some(policy) => policy.deterministic_random,
        None => var_model(host.random_var) matches Some(value) && asks_for_zeros(value),
    }
}

/// Whether a table of file descriptors is the one that a guest with the given directories starts
/// with.
pub open spec fn starts_with_preopens(
    fds: Seq<Option<FdEntry>>,
    preopens: Seq<PreopenModel>,
) -> bool {
    &&& fds.len() == 3 + preopens.len()
    &&& fds[0] == Some(FdEntry::Stdin)
    &&& fds[1] == Some(FdEntry::Stdout)
    &&& fds[2] == Some(FdEntry::Stderr)
    &&& forall|i: int|
        0 <= i < preopens.len() ==> (fds[3 + i] matches Some(FdEntry::PreopenDir(dir)) && dir@
            == #[trigger] preopens[i])
}

/// Whether a context is the one that a guest starts with, under a policy or without one.
pub open spec fn is_fresh(
    policy: Option<WasiPolicy>,
    host: &HostEnv,
    canons: Seq<Option<PathModel>>,
    ctx: &WasiProcMacroCtx,
) -> bool {
    &&& crate::memory::byte_seqs(ctx.args_entries@) == given_args(policy, host)
    &&& crate::memory::byte_seqs(ctx.env_entries@) == given_env(policy, host)
    &&& ctx.stdout_capture@.len() == 0
    &&& ctx.stderr_capture@.len() == 0
    &&& ctx.mirror_stdio == (policy matches Some(policy) ==> policy.mirror_stdio)
    &&& ctx.deterministic_random == given_zeros(policy, host)
    &&& ctx.random_counter == 0
    &&& starts_with_preopens(ctx.fds@, given_preopens(policy, host, canons))
}

/// The context that a guest starts with. `canons` says where each of the paths leads that the
/// host had to look at.
pub fn from_host(policy: &Option<WasiPolicy>, host: &HostEnv, canons: &Vec<Option<HostPath>>) -> (
ctx: WasiProcMacroCtx)
    requires
        canons@.len() == queries(*policy, host).len(),
    ensures
        is_fresh(*policy, host, path_models(canons@), &ctx),
{
    let preopens: Vec<PreopenDir> = match policy {
        Some(policy) => preopens_from_policy(policy, canons),
        None => preopens_from_host(host, canons),
    };
    let inherit_args: bool = match policy {
        Some(policy) => policy.inherit_args,
        None => true,
    };
    let args_entries: Vec<Vec<u8>> = if inherit_args {
        collect_args_entries(&host.args)
    } else {
        Vec::new()
    };
    assert(crate::memory::byte_seqs(args_entries@) =~= given_args(*policy, host));
    let env_entries: Vec<Vec<u8>> = match policy {
        Some(policy) => if policy.inherit_env {
            collect_env_entries(&host.vars, Some(&policy.env_allowlist))
        } else {
            Vec::new()
        },
        None => collect_env_entries(&host.vars, None),
    };
    assert(crate::memory::byte_seqs(env_entries@) =~= given_env(*policy, host));
    let mirror_stdio: bool = match policy {
        Some(policy) => policy.mirror_stdio,
        None => true,
    };
    let deterministic_random: bool = match policy {
        Some(policy) => policy.deterministic_random,
        None => match &host.random_var {
            Some(value) => wants_zeros(value.as_str()),
            None => false,
        },
    };
    let ctx = WasiProcMacroCtx::new(
        args_entries,
        env_entries,
        mirror_stdio,
        deterministic_random,
        preopens,
    );
    proof {
        let wanted = given_preopens(*policy, host, path_models(canons@));
        assert(preopen_models(preopens@) == wanted);
        assert forall|i: int| 0 <= i < wanted.len() implies (ctx.fds@[3 + i] matches Some(
            FdEntry::PreopenDir(dir),
        ) && dir@ == #[trigger] wanted[i]) by {
            assert(wanted[i] == preopens@[i]@);
        }
    }
    ctx
}

/// The policy that is in force, and the guest's context.
#[derive(Debug)]
pub struct WasiState {
    pub policy: Option<WasiPolicy>,
    pub ctx: WasiProcMacroCtx,
}

impl WasiState {
    /// No policy in force.
    pub fn new(host: &HostEnv, canons: &Vec<Option<HostPath>>) -> (state: WasiState)
        requires
            canons@.len() == queries(None, host).len(),
        ensures
            state.policy is None,
            is_fresh(None, host, path_models(canons@), &state.ctx),
    {
        let policy: Option<WasiPolicy> = None;
        let ctx = from_host(&policy, host, canons);
        WasiState { policy, ctx }
    }

    /// The policy that is in force.
    pub fn active_policy(&self) -> (policy: &Option<WasiPolicy>)
        ensures
            *policy == self.policy,
    {
        &self.policy
    }

    /// Starts over with the policy that is in force.
    pub fn reset_from_host(&mut self, host: &HostEnv, canons: &Vec<Option<HostPath>>)
        requires
            canons@.len() == queries(old(self).policy, host).len(),
        ensures
            final(self).policy == old(self).policy,
            is_fresh(old(self).policy, host, path_models(canons@), &final(self).ctx),
    {
        self.ctx = from_host(&self.policy, host, canons);
    }

    /// Puts a policy in force and starts over with it.
    pub fn set_policy(&mut self, policy: WasiPolicy, host: &HostEnv, canons: &Vec<Option<HostPath>>)
        requires
            canons@.len() == queries(Some(policy), host).len(),
        ensures
            final(self).policy == Some(policy),
            is_fresh(Some(policy), host, path_models(canons@), &final(self).ctx),
    {
        self.policy = Some(policy);
        self.reset_from_host(host, canons);
    }

    /// Lifts the policy and starts over without one.
    pub fn clear_policy(&mut self, host: &HostEnv, canons: &Vec<Option<HostPath>>)
        requires
            canons@.len() == queries(None, host).len(),
        ensures
            final(self).policy is None,
            is_fresh(None, host, path_models(canons@), &final(self).ctx),
    {
        self.policy = None;
        self.reset_from_host(host, canons);
    }
}

/// A policy that lets a guest inherit neither arguments nor environment leaves it without both.
pub proof fn law_policy_disables_inheritance(
    policy: WasiPolicy,
    host: &HostEnv,
    canons: Seq<Option<PathModel>>,
    ctx: &WasiProcMacroCtx,
)
    requires
        is_fresh(Some(policy), host, canons, ctx),
    ensures
        !policy.inherit_args ==> ctx.args_entries@.len() == 0,
        !policy.inherit_env ==> ctx.env_entries@.len() == 0,
{
    assert(crate::memory::byte_seqs(ctx.args_entries@).len() == ctx.args_entries@.len());
    assert(crate::memory::byte_seqs(ctx.env_entries@).len() == ctx.env_entries@.len());
}

/// Under a policy nothing of the host's two variables and working directory reaches the guest.
pub proof fn law_policy_overrides_host(
    policy: WasiPolicy,
    host: &HostEnv,
    other: &HostEnv,
    canons: Seq<Option<PathModel>>,
    ctx: &WasiProcMacroCtx,
)
    requires
        is_fresh(Some(policy), host, canons, ctx),
        other.args == host.args,
        other.vars == host.vars,
    ensures
        is_fresh(Some(policy), other, canons, ctx),
{
}

/// A guest without a policy is given one directory, which it may write to, where
/// [`PREOPENS_ENV`] asks for nothing that is a directory and the host works in one.
pub proof fn law_fallback_is_writable(host: &HostEnv, canons: Seq<Option<PathModel>>)
    requires
        found_preopens(requested(var_model(host.preopens_var)), canons).len() == 0,
        host.current_dir matches Some(dir) && dir.canonical is Some,
    ensures
        given_preopens(None, host, canons).len() == 1,
        given_preopens(None, host, canons)[0].writable,
        given_preopens(None, host, canons)[0].root
            == host.current_dir->Some_0.canonical->Some_0@,
{
}

/// What a guest inherits of the environment: each variable as its name, `=`, its value and a zero
/// byte, in the host's order; with an allowlist that is not empty, exactly those whose names are
/// somewhere on it.
pub proof fn law_inherited_environment(vars: Seq<HostVar>, allowlist: Seq<Seq<char>>)
    ensures
        allowlist.len() > 0 ==> env_entries(vars, Some(allowlist)) == vars.filter(
            |var: HostVar| allowlist.contains(text::utf8_lossy(var.name@)),
        ).map_values(
            |var: HostVar|
                vstd::utf8::encode_utf8(text::utf8_lossy(var.name@)) + seq![0x3du8]
                    + vstd::utf8::encode_utf8(text::utf8_lossy(var.value@)) + seq![0u8],
        ),
        allowlist.len() == 0 ==> env_entries(vars, Some(allowlist)) == env_entries(vars, None),
        env_entries(vars, None) == vars.map_values(
            |var: HostVar|
                vstd::utf8::encode_utf8(text::utf8_lossy(var.name@)) + seq![0x3du8]
                    + vstd::utf8::encode_utf8(text::utf8_lossy(var.value@)) + seq![0u8],
        ),
    decreases vars.len(),
{
    let write = |var: HostVar|
        vstd::utf8::encode_utf8(text::utf8_lossy(var.name@)) + seq![0x3du8]
            + vstd::utf8::encode_utf8(text::utf8_lossy(var.value@)) + seq![0u8];
    let keep = |var: HostVar| allowlist.contains(text::utf8_lossy(var.name@));
    reveal(Seq::filter);
    if vars.len() > 0 {
        let fewer = vars.drop_last();
        let last = vars.last();
        law_inherited_environment(fewer, allowlist);
        assert(var_entry(last) =~= write(last));
        assert(vars.map_values(write) =~= fewer.map_values(write).push(write(last)));
        let kept = fewer.filter(keep);
        assert(kept.push(last).map_values(write) =~= kept.map_values(write).push(write(last)));
    } else {
        assert(env_entries(vars, None) =~= vars.map_values(write));
        assert(env_entries(vars, Some(allowlist)) =~= vars.filter(keep).map_values(write));
    }
}

/// Each variable whose name is anywhere on the allowlist is among what the guest inherits.
pub proof fn law_allowed_variables_are_inherited(
    vars: Seq<HostVar>,
    allowlist: Seq<Seq<char>>,
    i: int,
    k: int,
)
    requires
        0 <= i < vars.len(),
        0 <= k < allowlist.len(),
        allowlist[k] == text::utf8_lossy(vars[i].name@),
    ensures
        env_entries(vars, Some(allowlist)).contains(
            vstd::utf8::encode_utf8(allowlist[k]) + seq![0x3du8] + vstd::utf8::encode_utf8(
                text::utf8_lossy(vars[i].value@),
            ) + seq![0u8],
        ),
    decreases vars.len(),
{
    let all = env_entries(vars, Some(allowlist));
    let fewer = vars.drop_last();
    let before = env_entries(fewer, Some(allowlist));
    let entry = vstd::utf8::encode_utf8(allowlist[k]) + seq![0x3du8] + vstd::utf8::encode_utf8(
        text::utf8_lossy(vars[i].value@),
    ) + seq![0u8];
    if i < fewer.len() {
        assert(fewer[i] == vars[i]);
        law_allowed_variables_are_inherited(fewer, allowlist, i, k);
        let j = choose|j: int| 0 <= j < before.len() && before[j] == entry;
        assert(all[j] == entry);
    } else {
        assert(allowlist.contains(text::utf8_lossy(vars.last().name@)));
        assert(var_entry(vars.last()) =~= entry);
        assert(all.last() == entry);
    }
}

/// A variable without the name of which the allowlist says something changes nothing of what is
/// inherited.
pub proof fn law_other_variables_are_not_inherited(
    vars: Seq<HostVar>,
    allowlist: Seq<Seq<char>>,
    var: HostVar,
)
    requires
        allowlist.len() > 0,
        !allowlist.contains(text::utf8_lossy(var.name@)),
    ensures
        env_entries(vars.push(var), Some(allowlist)) == env_entries(vars, Some(allowlist)),
{
    assert(vars.push(var).drop_last() =~= vars);
}

/// A guest that starts under a policy has each setting of the policy: it has the arguments and the
/// environment exactly if it inherits them, its output is printed by the host exactly if that was
/// asked for, and random numbers and clocks are zeros exactly if that was asked for. Nothing was
/// printed and no random number drawn yet.
pub proof fn law_policy_settings(
    policy: WasiPolicy,
    host: &HostEnv,
    canons: Seq<Option<PathModel>>,
    ctx: &WasiProcMacroCtx,
)
    requires
        is_fresh(Some(policy), host, canons, ctx),
    ensures
        ctx.deterministic_random == policy.deterministic_random,
        ctx.mirror_stdio == policy.mirror_stdio,
        crate::memory::byte_seqs(ctx.args_entries@) == (if policy.inherit_args {
            Seq::new(host.args@.len(), |i: int| lossy(host.args@[i]@).push(0))
        } else {
            Seq::<Seq<u8>>::empty()
        }),
        crate::memory::byte_seqs(ctx.env_entries@) == (if policy.inherit_env {
            env_entries(host.vars@, Some(text::texts(policy.env_allowlist@)))
        } else {
            Seq::<Seq<u8>>::empty()
        }),
        ctx.stdout_capture@ == Seq::<u8>::empty(),
        ctx.stderr_capture@ == Seq::<u8>::empty(),
        ctx.random_counter == 0,
{
    assert(crate::memory::byte_seqs(ctx.args_entries@) =~= if policy.inherit_args {
        Seq::new(host.args@.len(), |i: int| lossy(host.args@[i]@).push(0))
    } else {
        Seq::<Seq<u8>>::empty()
    });
    assert(ctx.stdout_capture@ =~= Seq::<u8>::empty());
    assert(ctx.stderr_capture@ =~= Seq::<u8>::empty());
}

/// A guest under a policy that asks for zeros is given no random byte but zeros, and is told that
/// each clock that exists stands at zero.
pub proof fn law_policy_gives_zeros(
    policy: WasiPolicy,
    host: &HostEnv,
    canons: Seq<Option<PathModel>>,
    ctx: WasiProcMacroCtx,
    clock_id: u32,
    nanos: Option<u128>,
    bytes: Seq<u8>,
)
    requires
        is_fresh(Some(policy), host, canons, &ctx),
        policy.deterministic_random,
    ensures
        clock_id <= 1 ==> (ctx.clock_of(clock_id) matches Ok(source) && wasi_ctx::clock_time(
            source,
            nanos,
        ) == Ok::<u64, i32>(0)),
        wasi_ctx::are_given(ctx, bytes) ==> forall|i: int|
            0 <= i < bytes.len() ==> (#[trigger] bytes[i]) == 0,
{
}

/// A guest that starts without a policy has all arguments and the whole environment, its output is
/// printed by the host, and random numbers and clocks are zeros exactly if a variable asks for it.
pub proof fn law_settings_without_policy(
    host: &HostEnv,
    canons: Seq<Option<PathModel>>,
    ctx: &WasiProcMacroCtx,
)
    requires
        is_fresh(None, host, canons, ctx),
    ensures
        ctx.mirror_stdio,
        ctx.deterministic_random <==> (host.random_var matches Some(value) && asks_for_zeros(
            value@,
        )),
        crate::memory::byte_seqs(ctx.args_entries@) == Seq::new(
            host.args@.len(),
            |i: int| lossy(host.args@[i]@).push(0),
        ),
        crate::memory::byte_seqs(ctx.env_entries@) == env_entries(host.vars@, None),
        ctx.stdout_capture@ == Seq::<u8>::empty(),
        ctx.stderr_capture@ == Seq::<u8>::empty(),
        ctx.random_counter == 0,
{
    assert(crate::memory::byte_seqs(ctx.args_entries@) =~= Seq::new(
        host.args@.len(),
        |i: int| lossy(host.args@[i]@).push(0),
    ));
    assert(ctx.stdout_capture@ =~= Seq::<u8>::empty());
    assert(ctx.stderr_capture@ =~= Seq::<u8>::empty());
}

/// Zeros are asked for by `1`, and by `true` in any mixture of cases.
pub proof fn law_values_that_ask_for_zeros(value: Seq<char>)
    ensures
        asks_for_zeros(value) <==> value == seq!['1'] || (value.len() == 4 && (value[0] == 't'
            || value[0] == 'T') && (value[1] == 'r' || value[1] == 'R') && (value[2] == 'u'
            || value[2] == 'U') && (value[3] == 'e' || value[3] == 'E')),
{
    reveal_strlit("1");
    assert("1"@ =~= seq!['1']);
}

/// An argument, and each part of a variable, is made UTF-8.
pub proof fn law_host_texts(bytes: Seq<u8>)
    ensures
        lossy(bytes) == vstd::utf8::encode_utf8(text::utf8_lossy(bytes)),
        arg_entry(bytes) == vstd::utf8::encode_utf8(text::utf8_lossy(bytes)).push(0),
{
}

/// A guest starts with the streams and behind them the directories that it is given.
pub proof fn law_fresh_descriptors(
    policy: Option<WasiPolicy>,
    host: &HostEnv,
    canons: Seq<Option<PathModel>>,
    ctx: &WasiProcMacroCtx,
)
    requires
        is_fresh(policy, host, canons, ctx),
    ensures
        ({
            let dirs = match policy {
                Some(policy) => policy_preopens(policy.preopens@, canons),
                None => host_preopens(host, canons),
            };
            &&& ctx.fds@.len() == 3 + dirs.len()
            &&& ctx.fds@[0] == Some(FdEntry::Stdin)
            &&& ctx.fds@[1] == Some(FdEntry::Stdout)
            &&& ctx.fds@[2] == Some(FdEntry::Stderr)
            &&& forall|i: int|
                0 <= i < dirs.len() ==> (ctx.fds@[3 + i] matches Some(FdEntry::PreopenDir(dir))
                    && dir.root@ == (#[trigger] dirs[i]).root && dir.guest_path@
                    == dirs[i].guest_path && dir.writable == dirs[i].writable)
        }),
{
}

/// A policy gives its directories in their order: each one where the host says that it leads, and
/// those that the host cannot find, but whose path is absolute, by their own path. Each has the
/// name that the policy gives it, or its path as its name, and may be written to as the policy
/// says.
pub proof fn law_directories_of_a_policy(
    entries: Seq<WasiPreopenDir>,
    canons: Seq<Option<PathModel>>,
)
    requires
        canons.len() == entries.len(),
    ensures
        policy_preopens(entries, canons) == Seq::new(
            entries.len(),
            |i: int| (entries[i], canons[i]),
        ).filter_map(
            |pair: (WasiPreopenDir, Option<PathModel>)|
                {
                    let (entry, canon) = pair;
                    let read = match entry.windows {
                        Some(read) => read@,
                        None => path::path_of(PathKind::Slash, entry.path@),
                    };
                    let guest_path = match entry.guest_path {
                        Some(name) => text::utf8_lossy(name@),
                        None => text::utf8_lossy(entry.path@),
                    };
                    let writable = entry.writable;
                    match canon {
                        Some(root) => Some(PreopenModel { root, guest_path, writable }),
                        None => if read.is_absolute() {
                            Some(PreopenModel { root: read, guest_path, writable })
                        } else {
                            None
                        },
                    }
                },
        ),
    decreases entries.len(),
{
    let pick = |pair: (WasiPreopenDir, Option<PathModel>)|
        {
            let (entry, canon) = pair;
            let read = match entry.windows {
                Some(read) => read@,
                None => path::path_of(PathKind::Slash, entry.path@),
            };
            let guest_path = match entry.guest_path {
                Some(name) => text::utf8_lossy(name@),
                None => text::utf8_lossy(entry.path@),
            };
            let writable = entry.writable;
            match canon {
                Some(root) => Some(PreopenModel { root, guest_path, writable }),
                None => if read.is_absolute() {
                    Some(PreopenModel { root: read, guest_path, writable })
                } else {
                    None
                },
            }
        };
    let pairs = Seq::new(entries.len(), |i: int| (entries[i], canons[i]));
    if entries.len() > 0 {
        let fewer = entries.drop_last();
        let rest = canons.drop_last();
        law_directories_of_a_policy(fewer, rest);
        lemma_policy_preopens_of_first(fewer, canons, rest);
        assert(pairs.drop_last() =~= Seq::new(fewer.len(), |i: int| (fewer[i], rest[i])));
        assert(pairs.last() == (entries.last(), canons[entries.len() - 1]));
        assert(policy_preopens(entries, canons) =~= pairs.filter_map(pick));
    } else {
        assert(policy_preopens(entries, canons) =~= pairs.filter_map(pick));
    }
}

/// What is said of further directories plays no part.
proof fn lemma_policy_preopens_of_first(
    entries: Seq<WasiPreopenDir>,
    a: Seq<Option<PathModel>>,
    b: Seq<Option<PathModel>>,
)
    requires
        entries.len() <= a.len(),
        entries.len() <= b.len(),
        forall|i: int| 0 <= i < entries.len() ==> a[i] == b[i],
    ensures
        policy_preopens(entries, a) == policy_preopens(entries, b),
    decreases entries.len(),
{
    if entries.len() > 0 {
        lemma_policy_preopens_of_first(entries.drop_last(), a, b);
    }
}

/// Without a policy a guest is given the directories that the variable asks for, in their order, as
/// far as the host finds them, each under the name by which it was asked for; and where there is
/// none, the directory that the host works in, which may be written to.
pub proof fn law_directories_of_the_host(host: &HostEnv, canons: Seq<Option<PathModel>>)
    requires
        canons.len() == requested(var_model(host.preopens_var)).len(),
    ensures
        ({
            let wanted = requested(var_model(host.preopens_var));
            let found = Seq::new(wanted.len(), |i: int| (wanted[i], canons[i])).filter_map(
                |pair: ((Seq<char>, bool), Option<PathModel>)|
                    match pair.1 {
                        Some(root) => Some(
                            PreopenModel { root, guest_path: pair.0.0, writable: pair.0.1 },
                        ),
                        None => None,
                    },
            );
            host_preopens(host, canons) == (if found.len() > 0 {
                found
            } else {
                match host.current_dir {
                    Some(dir) => match dir.canonical {
                        Some(root) => seq![
                            PreopenModel {
                                root: root@,
                                guest_path: text::utf8_lossy(dir.path@),
                                writable: true,
                            },
                        ],
                        None => Seq::empty(),
                    },
                    None => Seq::empty(),
                }
            })
        }),
{
    lemma_found_preopens(requested(var_model(host.preopens_var)), canons);
}

/// The directories that are found, in their order.
proof fn lemma_found_preopens(wanted: Seq<(Seq<char>, bool)>, canons: Seq<Option<PathModel>>)
    requires
        wanted.len() <= canons.len(),
    ensures
        found_preopens(wanted, canons) == Seq::new(
            wanted.len(),
            |i: int| (wanted[i], canons[i]),
        ).filter_map(
            |pair: ((Seq<char>, bool), Option<PathModel>)|
                match pair.1 {
                    Some(root) => Some(
                        PreopenModel { root, guest_path: pair.0.0, writable: pair.0.1 },
                    ),
                    None => None,
                },
        ),
    decreases wanted.len(),
{
    let pick = |pair: ((Seq<char>, bool), Option<PathModel>)|
        match pair.1 {
            Some(root) => Some(PreopenModel { root, guest_path: pair.0.0, writable: pair.0.1 }),
            None => None,
        };
    let pairs = Seq::new(wanted.len(), |i: int| (wanted[i], canons[i]));
    if wanted.len() > 0 {
        let fewer = wanted.drop_last();
        lemma_found_preopens(fewer, canons);
        assert(pairs.drop_last() =~= Seq::new(fewer.len(), |i: int| (fewer[i], canons[i])));
        assert(pairs.last() == (wanted.last(), canons[wanted.len() - 1]));
        assert(found_preopens(wanted, canons) =~= pairs.filter_map(pick));
    } else {
        assert(found_preopens(wanted, canons) =~= pairs.filter_map(pick));
    }
}

/// The variable asks for directories between semicolons, in their order; what is empty asks for
/// none.
pub proof fn law_requested_directories(raw: Seq<char>)
    ensures
        requested(None) == Seq::<(Seq<char>, bool)>::empty(),
        requested(Some(raw)) == text::pieces(raw, ';').filter_map(
            |entry: Seq<char>| preopen_spec(entry),
        ),
{
    lemma_specs_of(text::pieces(raw, ';'));
}

/// What entries ask for.
proof fn lemma_specs_of(entries: Seq<Seq<char>>)
    ensures
        specs_of(entries) == entries.filter_map(|entry: Seq<char>| preopen_spec(entry)),
    decreases entries.len(),
{
    let pick = |entry: Seq<char>| preopen_spec(entry);
    if entries.len() > 0 {
        lemma_specs_of(entries.drop_last());
        assert(specs_of(entries) =~= entries.filter_map(pick));
    } else {
        assert(specs_of(entries) =~= entries.filter_map(pick));
    }
}

/// An entry asks for a directory that may be written to where `:rw` stands behind the path, and for
/// one that may not where `:ro` or nothing does. White space around the entry and around the path
/// plays no part, and an entry of nothing else asks for nothing.
pub proof fn law_requested_directory(entry: Seq<char>, path: Seq<char>)
    ensures
        text::trimmed(entry) == path + seq![':', 'r', 'w'] ==> preopen_spec(entry) == Some(
            (text::trimmed(path), true),
        ),
        text::trimmed(entry) == path + seq![':', 'r', 'o'] ==> preopen_spec(entry) == Some(
            (text::trimmed(path), false),
        ),
        text::trimmed(entry).len() == 0 ==> preopen_spec(entry) is None,
        ({
            let all = text::trimmed(entry);
            let n = all.len() as int;
            let marked = n >= 3 && all[n - 3] == ':' && all[n - 2] == 'r' && (all[n - 1] == 'w'
                || all[n - 1] == 'o');
            all.len() > 0 && !marked ==> preopen_spec(entry) == Some((all, false))
        }),
{
    let all = text::trimmed(entry);
    let n = all.len() as int;
    reveal_strlit(":rw");
    reveal_strlit(":ro");
    assert(":rw"@ =~= seq![':', 'r', 'w']);
    assert(":ro"@ =~= seq![':', 'r', 'o']);
    if n >= 3 {
        let tail = all.skip(n - 3);
        assert(tail =~= seq![all[n - 3], all[n - 2], all[n - 1]]);
        assert(tail[0] == all[n - 3] && tail[1] == all[n - 2] && tail[2] == all[n - 1]);
        if all == path + seq![':', 'r', 'w'] || all == path + seq![':', 'r', 'o'] {
            assert(all.take(n - 3) =~= path);
        }
        if all == path + seq![':', 'r', 'w'] {
            assert(tail =~= seq![':', 'r', 'w']);
        }
        if all == path + seq![':', 'r', 'o'] {
            assert(tail =~= seq![':', 'r', 'o']);
            assert(seq![':', 'r', 'o'][2] != seq![':', 'r', 'w'][2]);
        }
    }
}

/// The host has to look at the paths of a policy, or at those that the variable asks for, and at no
/// other.
pub proof fn law_questions_for_the_host(policy: Option<WasiPolicy>, host: &HostEnv)
    ensures
        policy matches Some(policy) ==> queries(Some(policy), host) == policy.preopens@.map_values(
            |entry: WasiPreopenDir| entry.path@,
        ),
        policy is None ==> queries(policy, host) == requested(
            var_model(host.preopens_var),
        ).map_values(|wanted: (Seq<char>, bool)| vstd::utf8::encode_utf8(wanted.0)),
{
    if let Some(policy) = policy {
        assert(queries(Some(policy), host) =~= policy.preopens@.map_values(
            |entry: WasiPreopenDir| entry.path@,
        ));
    } else {
        assert(queries(policy, host) =~= requested(var_model(host.preopens_var)).map_values(
            |wanted: (Seq<char>, bool)| vstd::utf8::encode_utf8(wanted.0),
        ));
    }
}

/// What lists of settings say is what each of their members holds.
pub proof fn law_members_of_settings(
    dirs: Seq<PreopenDir>,
    found: Seq<Option<HostPath>>,
    wanted: Seq<(String, bool)>,
    names: Vec<String>,
    text: String,
    writable: bool,
)
    ensures
        preopen_models(dirs).len() == dirs.len(),
        forall|i: int|
            0 <= i < dirs.len() ==> (#[trigger] preopen_models(dirs)[i]).root == dirs[i].root@
                && preopen_models(dirs)[i].guest_path == dirs[i].guest_path@
                && preopen_models(dirs)[i].writable == dirs[i].writable,
        path_models(found).len() == found.len(),
        forall|i: int|
            0 <= i < found.len() ==> ((#[trigger] path_models(found)[i]) is Some <==> found[i] is
                Some) && (found[i] is Some ==> path_models(found)[i] == Some(found[i]->Some_0@)),
        spec_models(wanted).len() == wanted.len(),
        forall|i: int|
            0 <= i < wanted.len() ==> (#[trigger] spec_models(wanted)[i]) == (
                wanted[i].0@,
                wanted[i].1,
            ),
        spec_model(Some((text, writable))) == Some((text@, writable)),
        spec_model(None) is None,
        var_model(Some(text)) == Some(text@),
        var_model(None) is None,
        allowlist_model(None) is None,
        allowlist_model(Some(&names)) == Some(text::texts(names@)),
{
}

/// The names of the variables by which a guest without a policy is set up.
pub proof fn law_names_of_variables()
    ensures
        PREOPENS_ENV@ == "RUSTC_WATT_PREOPENS"@,
        DETERMINISTIC_RANDOM_ENV@ == "RUSTC_WATT_DETERMINISTIC_RANDOM"@,
{
}

} // verus!
