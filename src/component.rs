//! The component schema: identity, dependency declarations, traits,
//! platform-scoped downloads, natives and classpath, and launch arguments.

use vstd::prelude::*;

use crate::util::GradleSpecifier;

verus! {

/// An operating system.
#[derive(Debug, Clone, Copy, Hash, PartialEq, Eq, Structural)]
pub enum OsName {
    Linux,
    Osx,
    Windows,
}

/// A CPU architecture.
#[derive(Debug, Clone, Copy, Hash, PartialEq, Eq, Structural)]
pub enum Arch {
    X86,
    X86_64,
    Arm64,
}

/// A reference to another component by id, with an optional version
/// constraint.
#[derive(Debug, Clone, Hash, PartialEq, Eq)]
pub struct ComponentDependency {
    pub id: String,
    pub version: Option<String>,
}

/// A content hash, as hex digits.
#[derive(Debug, Clone, PartialEq, Eq)]
pub enum Hash {
    SHA256(String),
    SHA1(String),
}

/// How a hash reads in diagnostics.
pub open spec fn hash_text(h: Hash) -> Seq<char> {
    match h {
        Hash::SHA1(v) => "SHA1 hash "@ + v@,
        Hash::SHA256(v) => "SHA256 hash "@ + v@,
    }
}

impl Hash {
    /// `SHA1 hash <digits>` or `SHA256 hash <digits>`.
    pub fn to_string(&self) -> (r: String)
        ensures
            r@ == hash_text(*self),
    {
        match self {
            Hash::SHA1(v) => {
                let mut out = String::from_str("SHA1 hash ");
                out.append(v.as_str());
                out
            },
            Hash::SHA256(v) => {
                let mut out = String::from_str("SHA256 hash ");
                out.append(v.as_str());
                out
            },
        }
    }
}

/// A file to fetch: its coordinate, where it is, its size in bytes and its
/// hash.
#[derive(Debug, Clone, PartialEq, Eq)]
pub struct Download {
    pub name: GradleSpecifier,
    pub url: String,
    pub size: u32,
    pub hash: Hash,
}

/// A capability of a component.
#[derive(Debug, Clone, Copy, Hash, PartialEq, Eq, Structural, PartialOrd, Ord)]
pub enum Trait {
    /// The component needs `-XstartOnFirstThread` on macOS.
    MacStartOnFirstThread,
    SupportsCustomResolution,
    SupportsQuickPlayServerLegacy,
    SupportsQuickPlayServer,
    SupportsQuickPlayWorld,
}

/// How many traits there are.
pub const TRAIT_COUNT: usize = 5;

/// The trait at place `i` of the fixed order.
pub open spec fn trait_at(i: int) -> Trait {
    if i == 0 {
        Trait::MacStartOnFirstThread
    } else if i == 1 {
        Trait::SupportsCustomResolution
    } else if i == 2 {
        Trait::SupportsQuickPlayServerLegacy
    } else if i == 3 {
        Trait::SupportsQuickPlayServer
    } else {
        Trait::SupportsQuickPlayWorld
    }
}

/// The place of `t` in the fixed order.
pub open spec fn trait_rank(t: Trait) -> int {
    match t {
        Trait::MacStartOnFirstThread => 0,
        Trait::SupportsCustomResolution => 1,
        Trait::SupportsQuickPlayServerLegacy => 2,
        Trait::SupportsQuickPlayServer => 3,
        Trait::SupportsQuickPlayWorld => 4,
    }
}

/// The members of `s` among the first `n` places of the fixed order, in
/// that order.
pub open spec fn ordered_prefix(s: Set<Trait>, n: nat) -> Seq<Trait>
    decreases n,
{
    if n == 0 {
        Seq::empty()
    } else {
        let before = ordered_prefix(s, (n - 1) as nat);
        if s.contains(trait_at(n - 1)) {
            before.push(trait_at(n - 1))
        } else {
            before
        }
    }
}

/// The members of `s` in the fixed order.
pub open spec fn canonical_order(s: Set<Trait>) -> Seq<Trait> {
    ordered_prefix(s, TRAIT_COUNT as nat)
}

/// A set of traits. Whatever order they were added in, they are listed in
/// the fixed order of [`Trait`], each once.
#[derive(Debug, Clone, PartialEq, Eq, Structural)]
pub struct TraitSet {
    mac_start_on_first_thread: bool,
    supports_custom_resolution: bool,
    supports_quick_play_server_legacy: bool,
    supports_quick_play_server: bool,
    supports_quick_play_world: bool,
}

impl TraitSet {
    spec fn flag(self, t: Trait) -> bool {
        match t {
            Trait::MacStartOnFirstThread => self.mac_start_on_first_thread,
            Trait::SupportsCustomResolution => self.supports_custom_resolution,
            Trait::SupportsQuickPlayServerLegacy => self.supports_quick_play_server_legacy,
            Trait::SupportsQuickPlayServer => self.supports_quick_play_server,
            Trait::SupportsQuickPlayWorld => self.supports_quick_play_world,
        }
    }
}

impl View for TraitSet {
    type V = Set<Trait>;

    closed spec fn view(&self) -> Set<Trait> {
        Set::new(|t: Trait| self.flag(t))
    }
}

impl TraitSet {
    /// The empty set.
    pub fn new() -> (r: TraitSet)
        ensures
            r@ == Set::<Trait>::empty(),
    {
        let r = TraitSet {
            mac_start_on_first_thread: false,
            supports_custom_resolution: false,
            supports_quick_play_server_legacy: false,
            supports_quick_play_server: false,
            supports_quick_play_world: false,
        };
        assert(r@ =~= Set::<Trait>::empty());
        r
    }

    /// Adds `t`; adding a member again changes nothing.
    pub fn insert(&mut self, t: Trait)
        ensures
            final(self)@ == old(self)@.insert(t),
    {
        match t {
            Trait::MacStartOnFirstThread => self.mac_start_on_first_thread = true,
            Trait::SupportsCustomResolution => self.supports_custom_resolution = true,
            Trait::SupportsQuickPlayServerLegacy => self.supports_quick_play_server_legacy = true,
            Trait::SupportsQuickPlayServer => self.supports_quick_play_server = true,
            Trait::SupportsQuickPlayWorld => self.supports_quick_play_world = true,
        }
        assert(final(self)@ =~= old(self)@.insert(t));
    }

    /// Whether `t` is a member.
    pub fn contains(&self, t: Trait) -> (r: bool)
        ensures
            r == self@.contains(t),
    {
        match t {
            Trait::MacStartOnFirstThread => self.mac_start_on_first_thread,
            Trait::SupportsCustomResolution => self.supports_custom_resolution,
            Trait::SupportsQuickPlayServerLegacy => self.supports_quick_play_server_legacy,
            Trait::SupportsQuickPlayServer => self.supports_quick_play_server,
            Trait::SupportsQuickPlayWorld => self.supports_quick_play_world,
        }
    }

    /// Whether the set has no member.
    pub fn is_empty(&self) -> (r: bool)
        ensures
            r == (self@ == Set::<Trait>::empty()),
    {
        let r = !(self.mac_start_on_first_thread || self.supports_custom_resolution
            || self.supports_quick_play_server_legacy || self.supports_quick_play_server
            || self.supports_quick_play_world);
        if !r {
            assert(self@ != Set::<Trait>::empty()) by {
                if self.mac_start_on_first_thread {
                    assert(self@.contains(Trait::MacStartOnFirstThread));
                } else if self.supports_custom_resolution {
                    assert(self@.contains(Trait::SupportsCustomResolution));
                } else if self.supports_quick_play_server_legacy {
                    assert(self@.contains(Trait::SupportsQuickPlayServerLegacy));
                } else if self.supports_quick_play_server {
                    assert(self@.contains(Trait::SupportsQuickPlayServer));
                } else {
                    assert(self@.contains(Trait::SupportsQuickPlayWorld));
                }
            }
        } else {
            assert(self@ =~= Set::<Trait>::empty());
        }
        r
    }

    /// The set of the traits in `ts`.
    pub fn from_vec(ts: &Vec<Trait>) -> (r: TraitSet)
        ensures
            r@ == ts@.to_set(),
    {
        let mut r = TraitSet::new();
        let mut i: usize = 0;
        while i < ts.len()
            invariant
                i <= ts@.len(),
                r@ == ts@.take(i as int).to_set(),
            decreases ts@.len() - i,
        {
            r.insert(ts[i]);
            assert(ts@.take(i + 1) =~= ts@.take(i as int).push(ts@[i as int]));
            assert(ts@.take(i + 1).to_set() =~= ts@.take(i as int).to_set().insert(ts@[i as int]))
                by {
                let s0 = ts@.take(i as int);
                let s1 = ts@.take(i + 1);
                assert forall|x: Trait| #[trigger] s1.contains(x) implies s0.contains(x) || x
                    == ts@[i as int] by {
                    let k = choose|k: int| 0 <= k < s1.len() && s1[k] == x;
                    if k < i {
                        assert(s0[k] == x);
                    }
                }
                assert forall|x: Trait| #[trigger] s0.contains(x) implies s1.contains(x) by {
                    let k = choose|k: int| 0 <= k < s0.len() && s0[k] == x;
                    assert(s1[k] == x);
                }
                assert(s1[i as int] == ts@[i as int]);
            }
            i = i + 1;
        }
        assert(ts@.take(ts@.len() as int) =~= ts@);
        r
    }

    /// The members in the fixed order of [`Trait`].
    pub fn to_vec(&self) -> (r: Vec<Trait>)
        ensures
            r@ == canonical_order(self@),
    {
        let ghost s = self@;
        let mut r: Vec<Trait> = Vec::new();
        assert(r@ =~= ordered_prefix(s, 0));
        if self.mac_start_on_first_thread {
            r.push(Trait::MacStartOnFirstThread);
        }
        assert(s.contains(trait_at(0)) == self.mac_start_on_first_thread);
        assert(r@ =~= ordered_prefix(s, 1));
        if self.supports_custom_resolution {
            r.push(Trait::SupportsCustomResolution);
        }
        assert(s.contains(trait_at(1)) == self.supports_custom_resolution);
        assert(r@ =~= ordered_prefix(s, 2));
        if self.supports_quick_play_server_legacy {
            r.push(Trait::SupportsQuickPlayServerLegacy);
        }
        assert(s.contains(trait_at(2)) == self.supports_quick_play_server_legacy);
        assert(r@ =~= ordered_prefix(s, 3));
        if self.supports_quick_play_server {
            r.push(Trait::SupportsQuickPlayServer);
        }
        assert(s.contains(trait_at(3)) == self.supports_quick_play_server);
        assert(r@ =~= ordered_prefix(s, 4));
        if self.supports_quick_play_world {
            r.push(Trait::SupportsQuickPlayWorld);
        }
        assert(s.contains(trait_at(4)) == self.supports_quick_play_world);
        assert(r@ =~= ordered_prefix(s, 5));
        r
    }
}

/// The first `n` places of the fixed order list the members of `s` ranked
/// below `n`, each once, by rising rank.
proof fn lemma_ordered_prefix(s: Set<Trait>, n: nat)
    requires
        n <= TRAIT_COUNT,
    ensures
        forall|i: int, j: int|
            0 <= i < j < ordered_prefix(s, n).len() ==> trait_rank(#[trigger] ordered_prefix(s, n)[i])
                < trait_rank(#[trigger] ordered_prefix(s, n)[j]),
        forall|i: int|
            0 <= i < ordered_prefix(s, n).len() ==> trait_rank(#[trigger] ordered_prefix(s, n)[i])
                < n,
        forall|t: Trait|
            #[trigger] ordered_prefix(s, n).contains(t) <==> (s.contains(t) && trait_rank(t) < n),
    decreases n,
{
    if n > 0 {
        let m = (n - 1) as nat;
        lemma_ordered_prefix(s, m);
        let before = ordered_prefix(s, m);
        let after = ordered_prefix(s, n);
        assert(trait_rank(trait_at(m as int)) == m);
        assert forall|t: Trait| after.contains(t) <==> (s.contains(t) && trait_rank(t) < n) by {
            if after.contains(t) {
                let k = choose|k: int| 0 <= k < after.len() && after[k] == t;
                if k < before.len() {
                    assert(before[k] == t);
                    assert(before.contains(t));
                }
            }
            if s.contains(t) && trait_rank(t) < n {
                if trait_rank(t) < m {
                    assert(before.contains(t));
                    let k = choose|k: int| 0 <= k < before.len() && before[k] == t;
                    assert(after[k] == t);
                } else {
                    assert(t == trait_at(m as int));
                    assert(after[after.len() - 1] == t);
                }
            }
        }
    }
}

/// Listing a set of traits gives each member once, by rising place in the
/// fixed order, and nothing else.
pub proof fn lemma_canonical_order(s: Set<Trait>)
    ensures
        forall|i: int, j: int|
            0 <= i < j < canonical_order(s).len() ==> trait_rank(#[trigger] canonical_order(s)[i])
                < trait_rank(#[trigger] canonical_order(s)[j]),
        forall|t: Trait| #[trigger] canonical_order(s).contains(t) <==> s.contains(t),
{
    lemma_ordered_prefix(s, TRAIT_COUNT as nat);
}

/// Traits added to a set in two different orders are listed alike.
pub proof fn lemma_listing_ignores_insertion_order(a: Seq<Trait>, b: Seq<Trait>)
    requires
        a.to_multiset() == b.to_multiset(),
    ensures
        canonical_order(a.to_set()) == canonical_order(b.to_set()),
{
    broadcast use vstd::seq_lib::group_to_multiset_ensures;

    assert forall|t: Trait| a.to_set().contains(t) <==> b.to_set().contains(t) by {
        assert(a.contains(t) <==> a.to_multiset().count(t) > 0);
        assert(b.contains(t) <==> b.to_multiset().count(t) > 0);
    }
    assert(a.to_set() =~= b.to_set());
}

/// Where something applies: an empty `os` list means every operating system,
/// and no `arch` means every architecture.
#[derive(Debug, Clone, Hash, PartialEq, Eq)]
pub struct Platform {
    pub os: Vec<OsName>,
    pub arch: Option<Arch>,
}

/// Whether a scope of operating systems `os` and architecture `arch` takes in
/// the machine `(on_os, on_arch)`.
pub open spec fn platform_applies(
    os: Seq<OsName>,
    arch: Option<Arch>,
    on_os: OsName,
    on_arch: Arch,
) -> bool {
    (os.len() == 0 || os.contains(on_os)) && (arch matches Some(a) ==> a == on_arch)
}

impl Platform {
    /// Whether this scope takes in a machine with operating system `os` and
    /// architecture `arch`.
    pub fn applies_to(&self, os: OsName, arch: Arch) -> (r: bool)
        ensures
            r == platform_applies(self.os@, self.arch, os, arch),
    {
        let arch_ok = match self.arch {
            Some(a) => a == arch,
            None => true,
        };
        if !arch_ok {
            return false;
        }
        self.os.len() == 0 || contains_os(&self.os, os)
    }
}

fn contains_os(v: &Vec<OsName>, x: OsName) -> (r: bool)
    ensures
        r == v@.contains(x),
{
    let n = v.len();
    let mut i: usize = 0;
    while i < n
        invariant
            n == v@.len(),
            i <= n,
            forall|k: int| 0 <= k < i ==> v@[k] != x,
        decreases n - i,
    {
        if v[i] == x {
            assert(v@[i as int] == x);
            return true;
        }
        i = i + 1;
    }
    false
}

/// A native library: its coordinate, where it applies, and the paths left
/// out when it is unpacked.
#[derive(Debug, Clone, Hash, PartialEq, Eq)]
pub struct Native {
    pub name: GradleSpecifier,
    pub platform: Platform,
    pub exclusions: Vec<String>,
}

/// A classpath entry: on every machine, or only where its platform applies.
#[derive(Debug, Clone, Hash, PartialEq, Eq)]
pub enum ConditionalClasspathEntry {
    All(GradleSpecifier),
    PlatformSpecific { name: GradleSpecifier, platform: Platform },
}

impl ConditionalClasspathEntry {
    /// The coordinate of the entry.
    pub fn name(&self) -> (r: &GradleSpecifier)
        ensures
            r == match self {
                ConditionalClasspathEntry::All(n) => n,
                ConditionalClasspathEntry::PlatformSpecific { name, .. } => name,
            },
    {
        match self {
            ConditionalClasspathEntry::All(n) => n,
            ConditionalClasspathEntry::PlatformSpecific { name, .. } => name,
        }
    }

    /// Whether the entry belongs on a machine with operating system `os` and
    /// architecture `arch`.
    pub fn applies_to(&self, os: OsName, arch: Arch) -> (r: bool)
        ensures
            r == match self {
                ConditionalClasspathEntry::All(_) => true,
                ConditionalClasspathEntry::PlatformSpecific { platform, .. } => platform_applies(
                    platform.os@,
                    platform.arch,
                    os,
                    arch,
                ),
            },
    {
        match self {
            ConditionalClasspathEntry::All(_) => true,
            ConditionalClasspathEntry::PlatformSpecific { platform, .. } => platform.applies_to(
                os,
                arch,
            ),
        }
    }
}

/// The asset index of a game version.
#[derive(Debug, Clone, PartialEq, Eq)]
pub struct Assets {
    pub id: String,
    pub url: String,
    pub sha1: String,
    pub size: u32,
    pub total_size: u32,
}

/// A feature that gates a launch argument.
#[derive(Debug, Clone, Copy, PartialEq, Eq, Structural)]
pub enum ConditionFeature {
    Demo,
    Fullscreen,
    CustomResolution,
    QuickPlayServerLegacy,
    QuickPlayServer,
    QuickPlayWorld,
}

/// A launch argument: always passed, or only when its feature is on.
#[derive(Debug, Clone, PartialEq, Eq)]
pub enum MinecraftArgument {
    Always(String),
    Conditional { value: String, feature: ConditionFeature },
}

impl MinecraftArgument {
    /// The text of the argument.
    pub fn value(&self) -> (r: &String)
        ensures
            r == match self {
                MinecraftArgument::Always(v) => v,
                MinecraftArgument::Conditional { value, .. } => value,
            },
    {
        match self {
            MinecraftArgument::Always(v) => v,
            MinecraftArgument::Conditional { value, .. } => value,
        }
    }

    /// Whether the argument is passed when the features in `enabled` are on.
    pub fn is_included(&self, enabled: &Vec<ConditionFeature>) -> (r: bool)
        ensures
            r == match self {
                MinecraftArgument::Always(_) => true,
                MinecraftArgument::Conditional { feature, .. } => enabled@.contains(*feature),
            },
    {
        match self {
            MinecraftArgument::Always(_) => true,
            MinecraftArgument::Conditional { feature, .. } => contains_feature(enabled, *feature),
        }
    }
}

fn contains_feature(v: &Vec<ConditionFeature>, x: ConditionFeature) -> (r: bool)
    ensures
        r == v@.contains(x),
{
    let n = v.len();
    let mut i: usize = 0;
    while i < n
        invariant
            n == v@.len(),
            i <= n,
            forall|k: int| 0 <= k < i ==> v@[k] != x,
        decreases n - i,
    {
        if v[i] == x {
            assert(v@[i as int] == x);
            return true;
        }
        i = i + 1;
    }
    false
}

/// A point in time in UTC: whole seconds since 1970-01-01T00:00:00Z and the
/// nanoseconds past them, below two seconds' worth so that a leap second
/// fits.
#[derive(Debug, Clone, Copy, Hash, PartialEq, Eq)]
pub struct ReleaseTime {
    seconds: i64,
    nanos: u32,
}

/// The bound below which the nanoseconds of a [`ReleaseTime`] stay.
pub const NANOS_BOUND: u32 = 2_000_000_000;

impl ReleaseTime {
    #[verifier::type_invariant]
    spec fn inv(self) -> bool {
        self.nanos < NANOS_BOUND
    }

    /// The whole seconds of this time.
    pub closed spec fn seconds_spec(self) -> i64 {
        self.seconds
    }

    /// The nanoseconds past the whole seconds.
    pub closed spec fn nanos_spec(self) -> u32 {
        self.nanos
    }

    /// The time `seconds` and `nanos` after the epoch, when `nanos` is below
    /// [`NANOS_BOUND`].
    pub fn new(seconds: i64, nanos: u32) -> (r: Option<ReleaseTime>)
        ensures
            r is Some <==> nanos < NANOS_BOUND,
            r matches Some(t) ==> t.seconds_spec() == seconds && t.nanos_spec() == nanos,
    {
        if nanos < NANOS_BOUND {
            Some(ReleaseTime { seconds, nanos })
        } else {
            None
        }
    }

    /// The whole seconds since the epoch.
    pub fn seconds(&self) -> (r: i64)
        ensures
            r == self.seconds_spec(),
    {
        self.seconds
    }

    /// The nanoseconds past the whole seconds.
    pub fn nanos(&self) -> (r: u32)
        ensures
            r == self.nanos_spec(),
            r < NANOS_BOUND,
    {
        proof {
            use_type_invariant(self);
        }
        self.nanos
    }
}

/// A launchable component.
#[derive(Debug, Clone, PartialEq, Eq)]
pub struct Component {
    pub format_version: u32,
    pub id: String,
    pub version: String,
    pub requires: Vec<ComponentDependency>,
    pub conflicts: Vec<ComponentDependency>,
    pub before: Vec<ComponentDependency>,
    pub after: Vec<ComponentDependency>,
    pub provides: Vec<ComponentDependency>,
    pub traits: TraitSet,
    pub assets: Option<Assets>,
    pub downloads: Vec<Download>,
    /// Layered ahead of the game artifact.
    pub jarmods: Vec<GradleSpecifier>,
    /// Kept apart from the classpath so that jar mods can go before it.
    pub game_jar: Option<GradleSpecifier>,
    pub main_class: Option<String>,
    pub game_arguments: Vec<MinecraftArgument>,
    pub classpath: Vec<ConditionalClasspathEntry>,
    pub natives: Vec<Native>,
    pub release_time: ReleaseTime,
}

} // verus!
