//! Where the router keeps its files: configuration, data, run-time state and cache.

use std::path::PathBuf;

use sha2::Digest;
use vstd::prelude::*;
use vstd::utf8::encode_utf8;

use crate::text::{chars_of, hex_digits_denote_the_bytes, hex_of};

verus! {

/// An owned file system path of the standard library.
#[verifier::external_type_specification]
#[verifier::external_body]
pub struct ExPathBuf(std::path::PathBuf);

/// What `Path::join` returns for a path and a text.
pub uninterp spec fn joined(base: PathBuf, part: Seq<char>) -> PathBuf;

/// The components of a path, in the order in which `Path::components` lists them.
pub uninterp spec fn components(path: PathBuf) -> Seq<Seq<char>>;

/// Whether `s` is a single ordinary path component on every supported system.
pub open spec fn plain_component(s: Seq<char>) -> bool {
    &&& s.len() > 0
    &&& forall|i: int|
        0 <= i < s.len() ==> {
            let c = #[trigger] s[i];
            c != '/' && c != '\\' && c != ':' && c != '\0'
        }
    &&& s != seq!['.']
    &&& s != seq!['.', '.']
}

/// Whether what is adjoined to a path cannot become part of its root. It can only on Windows,
/// where a name completes a beginning such as `\\server`. The first component of such a path
/// is written with a backslash or several slashes, and no third one follows.
pub open spec fn fixed_root(path: PathBuf) -> bool {
    let c = components(path);
    c.len() == 0 || c.len() >= 3 || c[0] == seq!['/'] || !(c[0].contains('/') || c[0].contains(
        '\\',
    ))
}

/// `Path::join`: the path with `part` adjoined. An ordinary component is appended to the
/// components of a path with a fixed root. What happens to those of another path, where the
/// text may complete a prefix on Windows, and what an absolute, empty or composite `part`
/// does, is not said here.
#[verifier::external_body]
pub(crate) fn join(base: &PathBuf, part: &str) -> (r: PathBuf)
    ensures
        r == joined(*base, part@),
        fixed_root(*base) && plain_component(part@) ==> components(r) == components(*base).push(
            part@,
        ),
{
    base.join(part)
}

/// The fixed names that paths of the router are made of are ordinary components.
#[verifier::spinoff_prover]
proof fn lemma_fixed_names()
    ensures
        plain_component("router-state.json"@),
        plain_component("router-targets"@),
        plain_component("router"@),
        plain_component("accounts"@),
        plain_component("kimi-home"@),
        plain_component("router.lock"@),
        plain_component("router-account-locks"@),
{
    assert(seq!['.'].len() == 1);
    assert(seq!['.', '.'].len() == 2);
    assert(plain_component("router-state.json"@)) by {
        reveal_strlit("router-state.json");
        assert("router-state.json"@.len() == 17);
    }
    assert(plain_component("router-targets"@)) by {
        reveal_strlit("router-targets");
        assert("router-targets"@.len() == 14);
    }
    assert(plain_component("router"@)) by {
        reveal_strlit("router");
        assert("router"@.len() == 6);
    }
    assert(plain_component("accounts"@)) by {
        reveal_strlit("accounts");
        assert("accounts"@.len() == 8);
    }
    assert(plain_component("kimi-home"@)) by {
        reveal_strlit("kimi-home");
        assert("kimi-home"@.len() == 9);
    }
    assert(plain_component("router.lock"@)) by {
        reveal_strlit("router.lock");
        assert("router.lock"@.len() == 11);
    }
    assert(plain_component("router-account-locks"@)) by {
        reveal_strlit("router-account-locks");
        assert("router-account-locks"@.len() == 20);
    }
}

/// The SHA-256 digest of a sequence of bytes.
pub uninterp spec fn sha256(data: Seq<u8>) -> Seq<u8>;

/// `sha2::Sha256::digest`: the digest of `data`, which is 32 bytes long.
#[verifier::external_body]
fn sha256_digest(data: &[u8]) -> (r: Vec<u8>)
    ensures
        r@ == sha256(data@),
        r@.len() == 32,
{
    sha2::Sha256::digest(data).to_vec()
}

/// The directory name that stands for an account: half of the digest of its id, in
/// hexadecimal.
pub open spec fn account_dir_name(account_id: Seq<char>) -> Seq<char> {
    crate::text::hex_text(sha256(encode_utf8(account_id)).take(16))
}

/// The stable name of an account's private directory. It is made of the digest of the id
/// alone, so that no path shows the id itself.
pub fn router_account_dir_name(account_id: &str) -> (r: String)
    ensures
        r@ == account_dir_name(account_id@),
        r@.len() == 32,
        forall|i: int| 0 <= i < r@.len() ==> crate::text::is_lower_hex(#[trigger] r@[i]),
        plain_component(r@),
{
    let digest: Vec<u8> = sha256_digest(account_id.as_bytes());
    let r: String = hex_of(&digest, 16);
    proof {
        crate::text::lemma_hex_text(digest@.take(16));
        assert(seq!['.'].len() == 1);
        assert(seq!['.', '.'].len() == 2);
    }
    r
}

/// What a target name may begin and end with.
pub open spec fn target_edge(c: char) -> bool {
    'a' <= c <= 'z' || '0' <= c <= '9'
}

/// What a target name is made of.
pub open spec fn target_char(c: char) -> bool {
    target_edge(c) || c == '-' || c == '_' || c == '.'
}

/// The device names of Windows, which no file can have: `con`, `prn`, `aux`, `nul`,
/// `com1` to `com9` and `lpt1` to `lpt9`.
pub open spec fn device_name(s: Seq<char>) -> bool {
    ||| s == seq!['c', 'o', 'n']
    ||| s == seq!['p', 'r', 'n']
    ||| s == seq!['a', 'u', 'x']
    ||| s == seq!['n', 'u', 'l']
    ||| exists|d: char| '1' <= d <= '9' && s == #[trigger] seq!['c', 'o', 'm', d]
    ||| exists|d: char| '1' <= d <= '9' && s == #[trigger] seq!['l', 'p', 't', d]
}

/// The names that an ACP target can have: 1 to 64 lower-case letters, digits, dots,
/// underscores and hyphens, with a letter or digit at both ends, and no device name.
pub open spec fn router_target(s: Seq<char>) -> bool {
    &&& 1 <= s.len() <= 64
    &&& target_edge(s[0])
    &&& target_edge(s.last())
    &&& forall|i: int| 0 <= i < s.len() ==> target_char(#[trigger] s[i])
    &&& !device_name(s)
}

/// Whether `target` is a name that an ACP target can have. The name becomes part of
/// local paths.
pub fn valid_router_target(target: &str) -> (r: bool)
    ensures
        r == router_target(target@),
{
    let v: Vec<char> = chars_of(target);
    if v.len() == 0 || v.len() > 64 || !is_target_edge(v[0]) || !is_target_edge(v[v.len() - 1]) {
        return false;
    }
    let mut i: usize = 0;
    while i < v.len()
        invariant
            i <= v@.len(),
            v@ == target@,
            forall|k: int| 0 <= k < i ==> target_char(#[trigger] v@[k]),
        decreases v@.len() - i,
    {
        let c: char = v[i];
        if !is_target_edge(c) && c != '-' && c != '_' && c != '.' {
            assert(!target_char(target@[i as int]));
            return false;
        }
        i = i + 1;
    }
    !is_device_name(&v)
}

fn is_target_edge(c: char) -> (r: bool)
    ensures
        r == target_edge(c),
{
    ('a' <= c && c <= 'z') || ('0' <= c && c <= '9')
}

fn is_device_name(v: &Vec<char>) -> (r: bool)
    ensures
        r == device_name(v@),
{
    if v.len() == 3 {
        let (a, b, c): (char, char, char) = (v[0], v[1], v[2]);
        assert(v@ =~= seq![a, b, c]);
        let r: bool = (a == 'c' && b == 'o' && c == 'n') || (a == 'p' && b == 'r' && c == 'n') || (a
            == 'a' && b == 'u' && c == 'x') || (a == 'n' && b == 'u' && c == 'l');
        proof {
            assert(seq![a, b, c][0] == a && seq![a, b, c][1] == b && seq![a, b, c][2] == c);
            assert(forall|d: char| (#[trigger] seq!['c', 'o', 'm', d]).len() == 4);
            assert(forall|d: char| (#[trigger] seq!['l', 'p', 't', d]).len() == 4);
        }
        r
    } else if v.len() == 4 {
        let (a, b, c, d): (char, char, char, char) = (v[0], v[1], v[2], v[3]);
        assert(v@ =~= seq![a, b, c, d]);
        proof {
            assert(forall|e: char|
                v@ == #[trigger] seq!['c', 'o', 'm', e] ==> v@[0] == 'c' && v@[1] == 'o' && v@[2]
                    == 'm' && v@[3] == e);
            assert(forall|e: char|
                v@ == #[trigger] seq!['l', 'p', 't', e] ==> v@[0] == 'l' && v@[1] == 'p' && v@[2]
                    == 't' && v@[3] == e);
        }
        '1' <= d && d <= '9' && ((a == 'c' && b == 'o' && c == 'm') || (a == 'l' && b == 'p' && c
            == 't'))
    } else {
        proof {
            assert(forall|d: char| (#[trigger] seq!['c', 'o', 'm', d]).len() == 4);
            assert(forall|d: char| (#[trigger] seq!['l', 'p', 't', d]).len() == 4);
        }
        false
    }
}

/// A target name is an ordinary path component.
pub proof fn target_is_plain_component(target: Seq<char>)
    requires
        router_target(target),
    ensures
        plain_component(target),
{
    assert forall|i: int| 0 <= i < target.len() implies {
        let c = #[trigger] target[i];
        c != '/' && c != '\\' && c != ':' && c != '\0'
    } by {
        assert(target_char(target[i]));
    }
    assert(seq!['.'][0] == '.');
    assert(seq!['.', '.'][0] == '.');
}

/// Why the standard paths could not be found.
#[derive(Debug, Clone, Copy, PartialEq, Eq, Structural)]
pub enum ResolveError {
    /// The override is not an absolute path.
    RelativeHome,
    /// The system names no user directories.
    NoUserDirectories,
}

/// The error in words.
pub fn resolve_error_text(error: ResolveError) -> (r: String)
    ensures
        r@ == match error {
            ResolveError::RelativeHome => "KIMI_SWITCH_HOME must be an absolute path"@,
            ResolveError::NoUserDirectories => "cannot resolve user directories"@,
        },
{
    match error {
        ResolveError::RelativeHome => "KIMI_SWITCH_HOME must be an absolute path".to_string(),
        ResolveError::NoUserDirectories => "cannot resolve user directories".to_string(),
    }
}

/// Whether a directory of an earlier release moves to its present place: only where
/// there is one and nothing stands at the new place yet.
pub fn migrates(old_exists: bool, new_exists: bool) -> (r: bool)
    ensures
        r == (old_exists && !new_exists),
{
    old_exists && !new_exists
}

/// The standard directories of the project.
#[derive(Debug)]
pub struct AppPaths {
    /// Configuration: the account registry and provider metadata.
    pub config_dir: PathBuf,
    /// Data: audit log and credentials.
    pub data_dir: PathBuf,
    /// Run-time state: snapshots, locks and the control endpoint.
    pub state_dir: PathBuf,
    /// Cache: quota query results, which can be thrown away.
    pub cache_dir: PathBuf,
}

/// `PathBuf::clone`: the same path.
#[verifier::external_body]
fn copy_path(path: &PathBuf) -> (r: PathBuf)
    ensures
        r == *path,
{
    path.clone()
}

impl Clone for AppPaths {
    fn clone(&self) -> (r: AppPaths)
        ensures
            r == *self,
    {
        AppPaths {
            config_dir: copy_path(&self.config_dir),
            data_dir: copy_path(&self.data_dir),
            state_dir: copy_path(&self.state_dir),
            cache_dir: copy_path(&self.cache_dir),
        }
    }
}

/// A file of a target's state directory. The default target keeps its files in the
/// state directory itself, every other target has a directory of its own.
pub open spec fn target_file(state_dir: PathBuf, target: Seq<char>, file: Seq<char>) -> PathBuf {
    if target == "default"@ {
        joined(state_dir, file)
    } else {
        joined(joined(joined(state_dir, "router-targets"@), target), file)
    }
}

/// The components of a target's state file, after those of the state directory.
pub open spec fn target_file_parts(target: Seq<char>, file: Seq<char>) -> Seq<Seq<char>> {
    if target == "default"@ {
        seq![file]
    } else {
        seq!["router-targets"@, target, file]
    }
}

/// The components of the lease of an account, after those of the state directory.
pub open spec fn account_lock_parts(account_id: Seq<char>) -> Seq<Seq<char>> {
    seq!["router-account-locks"@, account_dir_name(account_id) + ".lock"@]
}

/// A target's data directory.
pub open spec fn target_dir(data_dir: PathBuf, target: Seq<char>) -> PathBuf {
    if target == "default"@ {
        joined(data_dir, "router"@)
    } else {
        joined(joined(data_dir, "router-targets"@), target)
    }
}

/// The components of a target's data directory, after those of the data directory.
pub open spec fn target_dir_parts(target: Seq<char>) -> Seq<Seq<char>> {
    if target == "default"@ {
        seq!["router"@]
    } else {
        seq!["router-targets"@, target]
    }
}

/// The private home of an account inside a target's data directory.
pub open spec fn account_home(data_dir: PathBuf, target: Seq<char>, account_id: Seq<char>) -> PathBuf {
    joined(
        joined(joined(target_dir(data_dir, target), "accounts"@), account_dir_name(account_id)),
        "kimi-home"@,
    )
}

/// The components of an account's private home, after those of the data directory.
pub open spec fn account_home_parts(target: Seq<char>, account_id: Seq<char>) -> Seq<Seq<char>> {
    target_dir_parts(target) + seq!["accounts"@, account_dir_name(account_id), "kimi-home"@]
}

impl AppPaths {
    /// The four directories under one root.
    pub open spec fn under(self, root: PathBuf) -> bool {
        &&& self.config_dir == joined(root, "config"@)
        &&& self.data_dir == joined(root, "data"@)
        &&& self.cache_dir == joined(root, "cache"@)
        &&& self.state_dir == joined(self.data_dir, "state"@)
    }

    /// Chooses the standard directories. An override that is set gathers all of them
    /// under one root, which has to be absolute; otherwise the system's configuration,
    /// data and cache directories (in this order) are used. The state directory is kept
    /// under the data directory.
    pub fn resolve(
        home: Option<(PathBuf, bool)>,
        user_dirs: Option<(PathBuf, PathBuf, PathBuf)>,
    ) -> (r: Result<AppPaths, ResolveError>)
        ensures
            match (home, user_dirs) {
                (Some((root, absolute)), _) => if absolute {
                    r matches Ok(p) && p.under(root)
                } else {
                    r == Err::<AppPaths, ResolveError>(ResolveError::RelativeHome)
                },
                (None, Some((config, data, cache))) => {
                    &&& r matches Ok(p)
                    &&& p.config_dir == config
                    &&& p.data_dir == data
                    &&& p.cache_dir == cache
                    &&& p.state_dir == joined(data, "state"@)
                },
                (None, None) => r == Err::<AppPaths, ResolveError>(ResolveError::NoUserDirectories),
            },
    {
        match home {
            Some((root, absolute)) => {
                if !absolute {
                    return Err(ResolveError::RelativeHome);
                }
                let data_dir: PathBuf = join(&root, "data");
                let state_dir: PathBuf = join(&data_dir, "state");
                Ok(
                    AppPaths {
                        config_dir: join(&root, "config"),
                        data_dir,
                        state_dir,
                        cache_dir: join(&root, "cache"),
                    },
                )
            },
            None => match user_dirs {
                Some((config_dir, data_dir, cache_dir)) => {
                    let state_dir: PathBuf = join(&data_dir, "state");
                    Ok(AppPaths { config_dir, data_dir, state_dir, cache_dir })
                },
                None => Err(ResolveError::NoUserDirectories),
            },
        }
    }

    /// The account registry.
    pub fn registry_file(&self) -> (r: PathBuf)
        ensures
            r == joined(self.config_dir, "registry.toml"@),
    {
        join(&self.config_dir, "registry.toml")
    }

    /// The tuning configuration, which may be missing.
    pub fn config_file(&self) -> (r: PathBuf)
        ensures
            r == joined(self.config_dir, "config.toml"@),
    {
        join(&self.config_dir, "config.toml")
    }

    /// The ACP targets and their account pools.
    pub fn acp_config_file(&self) -> (r: PathBuf)
        ensures
            r == joined(self.config_dir, "acp-targets.toml"@),
    {
        join(&self.config_dir, "acp-targets.toml")
    }

    /// The credential store. It lies with the data, so that it is not copied along with
    /// the configuration.
    pub fn credentials_file(&self) -> (r: PathBuf)
        ensures
            r == joined(self.data_dir, "credentials.json"@),
    {
        join(&self.data_dir, "credentials.json")
    }

    /// The audit log.
    pub fn audit_log(&self) -> (r: PathBuf)
        ensures
            r == joined(self.data_dir, "audit.log"@),
    {
        join(&self.data_dir, "audit.log")
    }

    /// The snapshots taken before a switch.
    pub fn snapshots_dir(&self) -> (r: PathBuf)
        ensures
            r == joined(self.state_dir, "snapshots"@),
    {
        join(&self.state_dir, "snapshots")
    }

    /// The process id file of the daemon.
    pub fn daemon_pid_file(&self) -> (r: PathBuf)
        ensures
            r == joined(self.state_dir, "kimi-switchd.pid"@),
    {
        join(&self.state_dir, "kimi-switchd.pid")
    }

    /// The log file of the daemon.
    pub fn daemon_log_file(&self) -> (r: PathBuf)
        ensures
            r == joined(self.data_dir, "kimi-switchd.log"@),
    {
        join(&self.data_dir, "kimi-switchd.log")
    }

    /// The random token of the control service.
    pub fn control_token_file(&self) -> (r: PathBuf)
        ensures
            r == joined(self.state_dir, "control-token"@),
    {
        join(&self.state_dir, "control-token")
    }

    /// The address of the control service, without its token.
    pub fn control_endpoint_file(&self) -> (r: PathBuf)
        ensures
            r == joined(self.state_dir, "control-endpoint.json"@),
    {
        join(&self.state_dir, "control-endpoint.json")
    }

    /// The cached quota query results.
    pub fn quota_cache_file(&self) -> (r: PathBuf)
        ensures
            r == joined(self.cache_dir, "quota_cache.json"@),
    {
        join(&self.cache_dir, "quota_cache.json")
    }

    /// The accounts that the user removed, which are not imported again by themselves.
    pub fn removed_file(&self) -> (r: PathBuf)
        ensures
            r == joined(self.config_dir, "removed.json"@),
    {
        join(&self.config_dir, "removed.json")
    }

    /// The session ownership state of the default target.
    pub fn router_state_file(&self) -> (r: PathBuf)
        ensures
            r == joined(self.state_dir, "router-state.json"@),
    {
        self.router_state_file_for_target("default")
    }

    /// The session ownership state of a target.
    pub fn router_state_file_for_target(&self, target: &str) -> (r: PathBuf)
        ensures
            r == target_file(self.state_dir, target@, "router-state.json"@),
            fixed_root(self.state_dir) && router_target(target@) ==> components(r) == components(
                self.state_dir,
            ) + target_file_parts(target@, "router-state.json"@),
    {
        proof {
            lemma_fixed_names();
            if router_target(target@) {
                target_is_plain_component(target@);
            }
        }
        if *target == *"default" {
            let r: PathBuf = join(&self.state_dir, "router-state.json");
            assert(components(self.state_dir).push("router-state.json"@) =~= components(
                self.state_dir,
            ) + target_file_parts(target@, "router-state.json"@));
            r
        } else {
            let r: PathBuf = join(
                &join(&join(&self.state_dir, "router-targets"), target),
                "router-state.json",
            );
            assert(components(self.state_dir).push("router-targets"@).push(target@).push(
                "router-state.json"@,
            ) =~= components(self.state_dir) + target_file_parts(target@, "router-state.json"@));
            r
        }
    }

    /// The data directory of the default target.
    pub fn router_data_dir(&self) -> (r: PathBuf)
        ensures
            r == joined(self.data_dir, "router"@),
    {
        self.router_data_dir_for_target("default")
    }

    /// The data directory of a target: the private homes of its accounts and its shared
    /// sessions.
    pub fn router_data_dir_for_target(&self, target: &str) -> (r: PathBuf)
        ensures
            r == target_dir(self.data_dir, target@),
            fixed_root(self.data_dir) && router_target(target@) ==> components(r) == components(
                self.data_dir,
            ) + target_dir_parts(target@),
    {
        proof {
            lemma_fixed_names();
            if router_target(target@) {
                target_is_plain_component(target@);
            }
        }
        if *target == *"default" {
            let r: PathBuf = join(&self.data_dir, "router");
            assert(components(self.data_dir).push("router"@) =~= components(self.data_dir)
                + target_dir_parts(target@));
            r
        } else {
            let r: PathBuf = join(&join(&self.data_dir, "router-targets"), target);
            assert(components(self.data_dir).push("router-targets"@).push(target@) =~= components(
                self.data_dir,
            ) + target_dir_parts(target@));
            r
        }
    }

    /// The private home of an account in the default target.
    pub fn router_account_home(&self, account_id: &str) -> (r: PathBuf)
        ensures
            r == account_home(self.data_dir, "default"@, account_id@),
    {
        self.router_account_home_for_target("default", account_id)
    }

    /// The private home of an account in a target.
    pub fn router_account_home_for_target(&self, target: &str, account_id: &str) -> (r: PathBuf)
        ensures
            r == account_home(self.data_dir, target@, account_id@),
            fixed_root(self.data_dir) && router_target(target@) ==> components(r) == components(
                self.data_dir,
            ) + account_home_parts(target@, account_id@),
    {
        proof {
            lemma_fixed_names();
        }
        let dir: PathBuf = self.router_data_dir_for_target(target);
        let name: String = router_account_dir_name(account_id);
        let r: PathBuf = join(&join(&join(&dir, "accounts"), name.as_str()), "kimi-home");
        assert(components(dir).push("accounts"@).push(name@).push("kimi-home"@) =~= components(dir)
            + seq!["accounts"@, name@, "kimi-home"@]);
        assert((components(self.data_dir) + target_dir_parts(target@)) + seq![
            "accounts"@,
            name@,
            "kimi-home"@,
        ] =~= components(self.data_dir) + account_home_parts(target@, account_id@));
        r
    }

    /// The instance lock of the default target.
    pub fn router_lock_file(&self) -> (r: PathBuf)
        ensures
            r == joined(self.state_dir, "router.lock"@),
    {
        self.router_lock_file_for_target("default")
    }

    /// The instance lock of a target.
    pub fn router_lock_file_for_target(&self, target: &str) -> (r: PathBuf)
        ensures
            r == target_file(self.state_dir, target@, "router.lock"@),
            fixed_root(self.state_dir) && router_target(target@) ==> components(r) == components(
                self.state_dir,
            ) + target_file_parts(target@, "router.lock"@),
    {
        proof {
            lemma_fixed_names();
            if router_target(target@) {
                target_is_plain_component(target@);
            }
        }
        if *target == *"default" {
            let r: PathBuf = join(&self.state_dir, "router.lock");
            assert(components(self.state_dir).push("router.lock"@) =~= components(self.state_dir)
                + target_file_parts(target@, "router.lock"@));
            r
        } else {
            let r: PathBuf = join(
                &join(&join(&self.state_dir, "router-targets"), target),
                "router.lock",
            );
            assert(components(self.state_dir).push("router-targets"@).push(target@).push(
                "router.lock"@,
            ) =~= components(self.state_dir) + target_file_parts(target@, "router.lock"@));
            r
        }
    }

    /// The lease that keeps an account from entering two targets at once. It does not
    /// depend on the target.
    pub fn router_account_lock_file(&self, account_id: &str) -> (r: PathBuf)
        ensures
            r == joined(
                joined(self.state_dir, "router-account-locks"@),
                account_dir_name(account_id@) + ".lock"@,
            ),
            fixed_root(self.state_dir) ==> components(r) == components(self.state_dir)
                + account_lock_parts(account_id@),
    {
        let dir: String = router_account_dir_name(account_id);
        let mut name: String = dir.clone();
        name.append(".lock");
        proof {
            lemma_fixed_names();
            reveal_strlit(".lock");
            assert(name@ == dir@ + ".lock"@);
            assert(".lock"@.len() == 5);
            assert forall|i: int| 0 <= i < name@.len() implies {
                let c = #[trigger] name@[i];
                c != '/' && c != '\\' && c != ':' && c != '\0'
            } by {
                if i < dir@.len() {
                    assert(name@[i] == dir@[i]);
                } else {
                    assert(name@[i] == ".lock"@[i - dir@.len()]);
                }
            }
            assert(seq!['.'].len() == 1);
            assert(seq!['.', '.'].len() == 2);
            assert(plain_component(name@));
            assert(components(self.state_dir).push("router-account-locks"@).push(name@)
                =~= components(self.state_dir) + account_lock_parts(account_id@));
        }
        join(&join(&self.state_dir, "router-account-locks"), name.as_str())
    }
}

/// Two accounts have the same lease exactly where they have the same directory name, whatever
/// target they are used by; so an account that is in one target is kept out of all others.
pub proof fn account_locks_differ_with_the_account(x: Seq<char>, y: Seq<char>)
    ensures
        account_lock_parts(x) == account_lock_parts(y) <==> account_dir_name(x) == account_dir_name(
            y,
        ),
{
    let (a, b) = (account_dir_name(x), account_dir_name(y));
    if account_lock_parts(x) == account_lock_parts(y) {
        assert(account_lock_parts(x)[1] == account_lock_parts(y)[1]);
        assert((a + ".lock"@).len() == (b + ".lock"@).len());
        assert(a == (a + ".lock"@).take(a.len() as int));
        assert(b == (b + ".lock"@).take(b.len() as int));
    }
}

/// No lease of an account is a state file or an instance lock of a target.
pub proof fn account_locks_are_no_target_files(
    account: Seq<char>,
    target: Seq<char>,
    file: Seq<char>,
)
    ensures
        account_lock_parts(account) != target_file_parts(target, file),
{
    assert(account_lock_parts(account).len() == 2);
    assert(target_file_parts(target, file).len() != 2);
}

/// Two targets share no state file, no lock, no data directory and no account home, and
/// neither data directory lies inside the other.
pub proof fn targets_are_isolated(
    a: Seq<char>,
    b: Seq<char>,
    account: Seq<char>,
    other: Seq<char>,
)
    requires
        router_target(a),
        router_target(b),
        a != b,
    ensures
        target_file_parts(a, "router-state.json"@) != target_file_parts(b, "router-state.json"@),
        target_file_parts(a, "router.lock"@) != target_file_parts(b, "router.lock"@),
        !target_dir_parts(a).is_prefix_of(target_dir_parts(b)),
        !account_home_parts(a, account).is_prefix_of(account_home_parts(b, other)),
        target_dir_parts(a).is_prefix_of(account_home_parts(a, account)),
{
    reveal_strlit("router");
    reveal_strlit("router-targets");
    reveal_strlit("router-state.json");
    reveal_strlit("router.lock");
    let (x, y) = (target_dir_parts(a), target_dir_parts(b));
    assert("router"@.len() == 6 && "router-targets"@.len() == 14);
    assert(target_file_parts(a, "router.lock"@).len() == target_file_parts(b, "router.lock"@).len()
        ==> target_file_parts(a, "router.lock"@)[1] == a && target_file_parts(
        b,
        "router.lock"@,
    )[1] == b);
    assert(target_file_parts(a, "router-state.json"@).len() == target_file_parts(
        b,
        "router-state.json"@,
    ).len() ==> target_file_parts(a, "router-state.json"@)[1] == a && target_file_parts(
        b,
        "router-state.json"@,
    )[1] == b);
    if x.is_prefix_of(y) {
        assert(x[0] == y.subrange(0, x.len() as int)[0]);
        assert(x.len() == 2 ==> x[1] == y.subrange(0, 2)[1]);
    }
    let (h, k) = (account_home_parts(a, account), account_home_parts(b, other));
    if h.is_prefix_of(k) {
        assert(h[0] == k.subrange(0, h.len() as int)[0]);
        assert(h[1] == k.subrange(0, h.len() as int)[1]);
    }
    assert(x =~= h.subrange(0, x.len() as int));
}

/// Two continuations of one path are equal, or one begins the other, exactly where that holds of
/// what they add.
proof fn lemma_same_beginning(base: Seq<Seq<char>>, x: Seq<Seq<char>>, y: Seq<Seq<char>>)
    ensures
        base + x == base + y <==> x == y,
        (base + x).is_prefix_of(base + y) <==> x.is_prefix_of(y),
        base.is_prefix_of(base + x),
        x.len() > 0 ==> (base + x).last() == x.last(),
{
    let n = base.len() as int;
    assert((base + x).skip(n) == x);
    assert((base + y).skip(n) == y);
    assert((base + x).subrange(0, n) == base);
    if (base + x).is_prefix_of(base + y) {
        assert(x == y.subrange(0, x.len() as int)) by {
            assert forall|i: int| 0 <= i < x.len() implies x[i] == y[i] by {
                assert((base + x)[n + i] == (base + y).subrange(0, (base + x).len() as int)[n + i]);
            }
        }
    }
    if x.is_prefix_of(y) {
        assert forall|i: int| 0 <= i < (base + x).len() implies (base + x)[i] == (base + y)[i] by {
            if i >= n {
                assert(x[i - n] == y.subrange(0, x.len() as int)[i - n]);
            }
        }
        assert(base + x == (base + y).subrange(0, (base + x).len() as int));
    }
}

/// Below one state directory, two targets have different state files and different locks. All
/// of them lie in that directory and keep their names, and the lock of a target lies beside its
/// state file.
pub proof fn target_files_are_isolated(base: Seq<Seq<char>>, a: Seq<char>, b: Seq<char>)
    requires
        router_target(a),
        router_target(b),
        a != b,
    ensures
        base + target_file_parts(a, "router-state.json"@) != base + target_file_parts(
            b,
            "router-state.json"@,
        ),
        base + target_file_parts(a, "router.lock"@) != base + target_file_parts(
            b,
            "router.lock"@,
        ),
        base + target_file_parts(a, "router-state.json"@) != base + target_file_parts(
            a,
            "router.lock"@,
        ),
        (base + target_file_parts(a, "router-state.json"@)).drop_last() == (base
            + target_file_parts(a, "router.lock"@)).drop_last(),
        base.is_prefix_of(base + target_file_parts(a, "router-state.json"@)),
        base.is_prefix_of(base + target_file_parts(a, "router.lock"@)),
        (base + target_file_parts(a, "router-state.json"@)).last() == "router-state.json"@,
        (base + target_file_parts(a, "router.lock"@)).last() == "router.lock"@,
{
    let (state_a, state_b) = (
        target_file_parts(a, "router-state.json"@),
        target_file_parts(b, "router-state.json"@),
    );
    let (lock_a, lock_b) = (
        target_file_parts(a, "router.lock"@),
        target_file_parts(b, "router.lock"@),
    );
    targets_are_isolated(a, b, a, b);
    lemma_same_beginning(base, state_a, state_b);
    lemma_same_beginning(base, lock_a, lock_b);
    lemma_same_beginning(base, state_a, lock_a);
    reveal_strlit("router-state.json");
    reveal_strlit("router.lock");
    assert("router-state.json"@.len() != "router.lock"@.len());
    assert(state_a.last() != lock_a.last());
    assert((base + state_a).drop_last() == (base + lock_a).drop_last());
}

/// Below one data directory, neither of two targets' directories is the other or lies inside
/// it, both lie strictly inside the data directory, and the home of an account lies in the
/// directory of its target, whatever the id of the account is.
pub proof fn target_directories_are_isolated(
    base: Seq<Seq<char>>,
    a: Seq<char>,
    b: Seq<char>,
    account: Seq<char>,
)
    requires
        router_target(a),
        router_target(b),
        a != b,
    ensures
        !(base + target_dir_parts(a)).is_prefix_of(base + target_dir_parts(b)),
        !(base + target_dir_parts(b)).is_prefix_of(base + target_dir_parts(a)),
        base.is_prefix_of(base + target_dir_parts(a)),
        base + target_dir_parts(a) != base,
        (base + target_dir_parts(a)).is_prefix_of(base + account_home_parts(a, account)),
        !(base + target_dir_parts(b)).is_prefix_of(base + account_home_parts(a, account)),
{
    let (x, y) = (target_dir_parts(a), target_dir_parts(b));
    let home = account_home_parts(a, account);
    targets_are_isolated(a, b, account, account);
    targets_are_isolated(b, a, account, account);
    lemma_same_beginning(base, x, y);
    lemma_same_beginning(base, y, x);
    lemma_same_beginning(base, x, home);
    lemma_same_beginning(base, y, home);
    assert((base + x).len() > base.len());
    if y.is_prefix_of(home) {
        reveal_strlit("router");
        reveal_strlit("router-targets");
        assert("router"@.len() != "router-targets"@.len());
        assert(y[0] == home.subrange(0, y.len() as int)[0]);
        assert(home[0] == x[0]);
        assert(y.len() == 2 ==> y[1] == home.subrange(0, 2)[1]);
        assert(x.len() == 2 ==> home[1] == x[1]);
    }
}

/// Below one state directory, the leases of two accounts are the same file exactly where the
/// accounts have the same directory name.
pub proof fn leases_follow_the_account(base: Seq<Seq<char>>, x: Seq<char>, y: Seq<char>)
    ensures
        base + account_lock_parts(x) == base + account_lock_parts(y) <==> account_dir_name(x)
            == account_dir_name(y),
        base.is_prefix_of(base + account_lock_parts(x)),
{
    account_locks_differ_with_the_account(x, y);
    lemma_same_beginning(base, account_lock_parts(x), account_lock_parts(y));
}

/// The characters of a target are lower-case letters, digits, hyphens, points and low lines, and
/// it begins and ends with a letter or a digit.
pub proof fn targets_are_made_of_plain_characters(c: char)
    ensures
        target_edge(c) <==> 97 <= c as int <= 122 || 48 <= c as int <= 57,
        target_char(c) <==> 97 <= c as int <= 122 || 48 <= c as int <= 57 || 45 <= c as int <= 46
            || c as int == 95,
{
}

/// A name of more than four characters, or of fewer than three, is a target exactly where it has
/// at most 64 characters, all of them plain, and begins and ends with a letter or a digit.
pub proof fn names_that_are_targets(s: Seq<char>)
    requires
        s.len() > 4 || s.len() < 3,
    ensures
        router_target(s) <==> {
            &&& 0 < s.len() < 65
            &&& forall|i: int| 0 <= i < s.len() ==> target_char(#[trigger] s[i])
            &&& s[0] != '-' && s[0] != '_' && s[0] != '.'
            &&& s[s.len() - 1] != '-' && s[s.len() - 1] != '_' && s[s.len() - 1] != '.'
        },
{
    if s.len() > 0 {
        assert(s.last() == s[s.len() - 1]);
        if forall|i: int| 0 <= i < s.len() ==> target_char(#[trigger] s[i]) {
            assert(target_char(s[0]) && target_char(s[s.len() - 1]));
        }
    }
    if device_name(s) {
        assert(s.len() == 3 || s.len() == 4);
    }
}

/// A name of four characters that could be a target is one, unless it is that of a numbered
/// device: `com` or `lpt` and a digit other than zero.
pub proof fn numbered_devices_are_no_targets(a: char, b: char, c: char, d: char)
    requires
        target_edge(a),
        target_char(b),
        target_char(c),
        target_edge(d),
    ensures
        router_target(seq![a, b, c, d]) <==> !((a == 'c' && b == 'o' && c == 'm' || a == 'l' && b
            == 'p' && c == 't') && 49 <= d as int <= 57),
{
    let s = seq![a, b, c, d];
    assert(s.last() == d);
    assert(s[0] == a && s[1] == b && s[2] == c && s[3] == d);
    let com = seq!['c', 'o', 'm', d];
    let lpt = seq!['l', 'p', 't', d];
    if a == 'c' && b == 'o' && c == 'm' {
        assert(s =~= com);
    }
    if a == 'l' && b == 'p' && c == 't' {
        assert(s =~= lpt);
    }
    if device_name(s) {
        assert(s.len() == 4);
        if exists|e: char| '1' <= e <= '9' && s == #[trigger] seq!['c', 'o', 'm', e] {
            let e = choose|e: char| '1' <= e <= '9' && s == #[trigger] seq!['c', 'o', 'm', e];
            assert(s[0] == 'c' && s[1] == 'o' && s[2] == 'm' && s[3] == e);
        } else {
            let e = choose|e: char| '1' <= e <= '9' && s == #[trigger] seq!['l', 'p', 't', e];
            assert(s[0] == 'l' && s[1] == 'p' && s[2] == 't' && s[3] == e);
        }
    }
}

/// A name of three characters that could be a target is one, unless it is that of a device:
/// `con`, `prn`, `aux` or `nul`.
pub proof fn devices_are_no_targets(a: char, b: char, c: char)
    requires
        target_edge(a),
        target_char(b),
        target_edge(c),
    ensures
        !router_target(seq![a, b, c]) <==> {
            ||| a == 'c' && b == 'o' && c == 'n'
            ||| a == 'p' && b == 'r' && c == 'n'
            ||| a == 'a' && b == 'u' && c == 'x'
            ||| a == 'n' && b == 'u' && c == 'l'
        },
{
    let s = seq![a, b, c];
    assert(s.last() == c);
    assert(s[0] == a && s[1] == b && s[2] == c);
    if a == 'c' && b == 'o' && c == 'n' {
        assert(s =~= seq!['c', 'o', 'n']);
    }
    if a == 'p' && b == 'r' && c == 'n' {
        assert(s =~= seq!['p', 'r', 'n']);
    }
    if a == 'a' && b == 'u' && c == 'x' {
        assert(s =~= seq!['a', 'u', 'x']);
    }
    if a == 'n' && b == 'u' && c == 'l' {
        assert(s =~= seq!['n', 'u', 'l']);
    }
    if device_name(s) {
        assert(s.len() == 3);
        assert(seq!['c', 'o', 'n'][0] == 'c' && seq!['c', 'o', 'n'][1] == 'o');
    }
}

/// Two targets, put together, are a target where the whole has from five to 64 characters.
pub proof fn targets_can_be_put_together(a: Seq<char>, b: Seq<char>)
    requires
        router_target(a),
        router_target(b),
        5 <= a.len() + b.len() <= 64,
    ensures
        router_target(a + b),
{
    let s = a + b;
    assert(s.last() == b.last());
    assert forall|i: int| 0 <= i < s.len() implies target_char(#[trigger] s[i]) by {
        if i >= a.len() {
            assert(s[i] == b[i - a.len()]);
        }
    }
    if device_name(s) {
        assert(s.len() == 3 || s.len() == 4);
    }
}

/// The directory of an account is named by two hexadecimal digits for each of the first sixteen
/// bytes of the hash of its id, so two accounts share a name exactly where they share these
/// bytes.
pub proof fn directory_name_denotes_the_hash(account: Seq<char>, other: Seq<char>, i: int)
    requires
        sha256(encode_utf8(account)).len() == 32,
        sha256(encode_utf8(other)).len() == 32,
        0 <= i < 16,
    ensures
        account_dir_name(account).len() == 32,
        ({
            let (x, y) = (account_dir_name(account)[2 * i], account_dir_name(account)[2 * i + 1]);
            let high = if x <= '9' {
                x as int - '0' as int
            } else {
                x as int - 'a' as int + 10
            };
            let low = if y <= '9' {
                y as int - '0' as int
            } else {
                y as int - 'a' as int + 10
            };
            sha256(encode_utf8(account))[i] == 16 * high + low
        }),
        account_dir_name(account) == account_dir_name(other) <==> forall|k: int|
            0 <= k < 16 ==> #[trigger] sha256(encode_utf8(account))[k] == sha256(
                encode_utf8(other),
            )[k],
{
    let a = sha256(encode_utf8(account)).take(16);
    let b = sha256(encode_utf8(other)).take(16);
    hex_digits_denote_the_bytes(a, i);
    if account_dir_name(account) == account_dir_name(other) {
        assert forall|k: int| 0 <= k < 16 implies #[trigger] sha256(encode_utf8(account))[k]
            == sha256(encode_utf8(other))[k] by {
            hex_digits_denote_the_bytes(a, k);
            hex_digits_denote_the_bytes(b, k);
            assert(a[k] == b[k]);
        }
    } else if forall|k: int|
        0 <= k < 16 ==> #[trigger] sha256(encode_utf8(account))[k] == sha256(
            encode_utf8(other),
        )[k] {
        assert(a =~= b);
    }
}

/// A plain component has neither a separator nor a colon nor a NUL, and is not empty and not one
/// of the two that stand for a directory. Longer strings of plain characters are components.
pub proof fn plain_components_have_no_separator(s: Seq<char>, t: Seq<char>)
    ensures
        plain_component(s) ==> s.len() > 0 && !s.contains('/') && !s.contains('\\') && !s.contains(
            ':',
        ) && !s.contains('\0'),
        plain_component(seq!['.']) == false && plain_component(seq!['.', '.']) == false,
        plain_component(s) && plain_component(t) ==> plain_component(s + t),
        s.len() > 2 && !s.contains('/') && !s.contains('\\') && !s.contains(':') && !s.contains(
            '\0',
        ) ==> plain_component(s),
{
    if plain_component(s) && plain_component(t) {
        let w = s + t;
        assert forall|i: int| 0 <= i < w.len() implies {
            let c = #[trigger] w[i];
            c != '/' && c != '\\' && c != ':' && c != '\0'
        } by {
            if i < s.len() {
                assert(w[i] == s[i]);
            } else {
                assert(w[i] == t[i - s.len()]);
            }
        }
        if w == seq!['.', '.'] {
            assert(s.len() == 1 ==> s =~= seq![w[0]]);
            assert(w[0] == '.');
        }
        assert(w.len() >= 2);
    }
    if s.len() > 2 && !s.contains('/') && !s.contains('\\') && !s.contains(':') && !s.contains(
        '\0',
    ) {
        assert forall|i: int| 0 <= i < s.len() implies {
            let c = #[trigger] s[i];
            c != '/' && c != '\\' && c != ':' && c != '\0'
        } by {
            assert(s.contains(s[i]));
        }
    }
}

/// The files of the default target lie in the state directory itself, those of another target
/// in a directory of its name; the directory `router` is that of the default target.
pub proof fn default_target_has_the_plain_places(
    dir: PathBuf,
    target: Seq<char>,
    file: Seq<char>,
    account: Seq<char>,
)
    ensures
        target_file(dir, "default"@, file) == joined(dir, file),
        target_dir(dir, "default"@) == joined(dir, "router"@),
        target != "default"@ ==> target_dir(dir, target) == joined(
            joined(dir, "router-targets"@),
            target,
        ) && target_file(dir, target, file) == joined(target_dir(dir, target), file),
        account_home(dir, target, account) == joined(
            joined(joined(target_dir(dir, target), "accounts"@), account_dir_name(account)),
            "kimi-home"@,
        ),
        target_file_parts(target, file).last() == file,
        target_file_parts("default"@, file) == seq![file],
        target != "default"@ ==> target_file_parts(target, file) == target_dir_parts(target).push(
            file,
        ) && target_dir_parts(target).last() == target,
        account_home_parts(target, account).last() == "kimi-home"@,
        account_home_parts(target, account)[target_dir_parts(target).len() + 1int]
            == account_dir_name(account),
{
    if target != "default"@ {
        assert(target_file_parts(target, file) =~= target_dir_parts(target).push(file));
    }
}

/// The four directories of one root lie in it, and the state directory in that of the data.
pub proof fn root_holds_every_directory(paths: AppPaths, root: PathBuf)
    requires
        paths.under(root),
    ensures
        paths.config_dir == joined(root, "config"@),
        paths.data_dir == joined(root, "data"@),
        paths.cache_dir == joined(root, "cache"@),
        paths.state_dir == joined(joined(root, "data"@), "state"@),
{
}

} // verus!
