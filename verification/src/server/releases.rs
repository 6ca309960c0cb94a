//! Agent releases this server holds, and which one its agents are offered.
//!
//! An administrator uploads a package with its signature file. The server
//! takes it only if the project's release key signed it and the package is
//! the one signed (the same checks every agent makes again before
//! installing), so what it offers can be nothing else. Then the administrator
//! offers it: at most one release per product and platform, which agents
//! older than it update to. Withdrawing it stops the rollout; agents that
//! updated stay updated.

use super::accounts::{internal, Refused};
use super::rows::{
    at, find, fresh_id, keep, lemma_at, lemma_at_own, lemma_kept, lemma_next_is_above,
    lemma_numbered_kept, lemma_numbered_push, next_id, numbered, Row,
};
use crate::bytes::{copy_bytes, same_bytes};
use crate::crypto::hashable;
use crate::hex::{hex, hex_of};
use crate::protocol::Version;
use crate::sort::{in_order, places, Ranked};
use crate::text::{
    chars_of, goes_first, lemma_plain_chain, lemma_plain_total, plain_at_most, same_text,
};
use crate::transport::release::{
    check_package, describes, signature_holds, verify, Invalid, Package, Release, SignedRelease,
};
use vstd::prelude::*;

verus! {

/// The largest package taken: an MSI is a few MB.
pub const MAX_PACKAGE: usize = 268_435_456;

#[derive(Debug, Clone, PartialEq, Eq)]
pub struct Listed {
    pub id: i64,
    pub product: String,
    pub platform: String,
    pub version: String,
    /// `msi`.
    pub package: String,
    /// In hex.
    pub sha256: String,
    pub size: i64,
    pub uploaded_at: i64,
    /// Whether agents are offered it now.
    pub offered: bool,
}

/// A release on offer, as an agent gets it.
#[derive(Debug)]
pub struct Offer {
    pub release: Release,
    pub signed: SignedRelease,
    /// The package file's name.
    pub file: String,
}

/// A release, as it is kept.
#[derive(Debug)]
pub struct ReleaseRecord {
    pub id: i64,
    pub product: String,
    pub platform: String,
    pub version: String,
    /// What the version reads as, if it does.
    pub number: Option<Version>,
    pub package: String,
    pub sha256: Vec<u8>,
    pub size: i64,
    /// The signature file.
    pub signature: String,
    pub uploaded_at: i64,
    pub offered: bool,
}

impl Row for ReleaseRecord {
    open spec fn key(&self) -> i64 {
        self.id
    }

    fn id(&self) -> (id: i64) {
        self.id
    }
}

/// A version sorts before an older one, and before one that does not read.
pub open spec fn newer_first(a: Option<Version>, b: Option<Version>) -> bool {
    match (a, b) {
        (Some(a), Some(b)) => a.newer(&b),
        (Some(_), None) => true,
        (None, _) => false,
    }
}

fn is_newer_first(a: &Option<Version>, b: &Option<Version>) -> (yes: bool)
    ensures
        yes == newer_first(*a, *b),
{
    match (a, b) {
        (Some(a), Some(b)) => a.is_newer(b),
        (Some(_), None) => true,
        (None, _) => false,
    }
}

/// By product and platform, the newest version first.
impl Ranked for ReleaseRecord {
    open spec fn ranks(&self, other: &ReleaseRecord) -> bool {
        if !plain_at_most(other.product@, self.product@) {
            true
        } else if !plain_at_most(self.product@, other.product@) {
            false
        } else if !plain_at_most(other.platform@, self.platform@) {
            true
        } else if !plain_at_most(self.platform@, other.platform@) {
            false
        } else if newer_first(self.number, other.number) {
            true
        } else if newer_first(other.number, self.number) {
            false
        } else {
            self.id >= other.id
        }
    }

    fn at_most(&self, other: &ReleaseRecord) -> (yes: bool) {
        let (a, b) = (chars_of(&self.product), chars_of(&other.product));
        if !goes_first(&b, &a) {
            return true;
        }
        if !goes_first(&a, &b) {
            return false;
        }
        let (a, b) = (chars_of(&self.platform), chars_of(&other.platform));
        if !goes_first(&b, &a) {
            return true;
        }
        if !goes_first(&a, &b) {
            return false;
        }
        if is_newer_first(&self.number, &other.number) {
            return true;
        }
        if is_newer_first(&other.number, &self.number) {
            return false;
        }
        self.id >= other.id
    }

    proof fn lemma_total(a: &ReleaseRecord, b: &ReleaseRecord) {
        lemma_plain_total(a.product@, b.product@);
        lemma_plain_total(a.platform@, b.platform@);
    }

    proof fn lemma_chain(a: &ReleaseRecord, b: &ReleaseRecord, c: &ReleaseRecord) {
        let (x, y, z) = (a.product@, b.product@, c.product@);
        lemma_plain_total(x, y);
        lemma_plain_total(y, z);
        lemma_plain_chain(x, y, z);
        if plain_at_most(z, x) {
            lemma_plain_chain(z, x, y);
            lemma_plain_chain(y, z, x);
            let (p, q, r) = (a.platform@, b.platform@, c.platform@);
            lemma_plain_total(p, q);
            lemma_plain_total(q, r);
            lemma_plain_chain(p, q, r);
            if plain_at_most(r, p) {
                lemma_plain_chain(r, p, q);
                lemma_plain_chain(q, r, p);
            }
        }
    }
}

pub open spec fn package_called(package: Package) -> Seq<char> {
    match package {
        Package::Msi => "msi"@,
    }
}

pub fn package_name(package: &Package) -> (name: &'static str)
    ensures
        name@ == package_called(*package),
{
    match package {
        Package::Msi => "msi",
    }
}

/// What the package with this hash is kept as.
pub fn file_name(sha256: &[u8]) -> (name: String)
    ensures
        name@ == hex_of(sha256@) + ".pkg"@,
{
    let mut name = hex(sha256);
    name.append(".pkg");
    name
}

impl Listed {
    /// This is what is shown of a release.
    pub open spec fn shows(&self, record: &ReleaseRecord) -> bool {
        &&& self.id == record.id
        &&& self.product@ == record.product@
        &&& self.platform@ == record.platform@
        &&& self.version@ == record.version@
        &&& self.package@ == record.package@
        &&& self.sha256@ == hex_of(record.sha256@)
        &&& self.size == record.size
        &&& self.uploaded_at == record.uploaded_at
        &&& self.offered == record.offered
    }
}

pub fn listed(record: &ReleaseRecord) -> (listed: Listed)
    ensures
        listed.shows(record),
{
    Listed {
        id: record.id,
        product: record.product.as_str().to_owned(),
        platform: record.platform.as_str().to_owned(),
        version: record.version.as_str().to_owned(),
        package: record.package.as_str().to_owned(),
        sha256: hex(&record.sha256),
        size: record.size,
        uploaded_at: record.uploaded_at,
        offered: record.offered,
    }
}

/// A signature file that was read: what it signs, and what that says.
#[derive(Debug)]
pub struct Signed {
    pub release: SignedRelease,
    /// What the signed bytes decode to, if they do.
    pub described: Option<Release>,
    /// The file as it is written.
    pub text: String,
}

/// A package with this hash is here.
pub open spec fn held(releases: Seq<ReleaseRecord>, sha256: Seq<u8>) -> bool {
    exists|i: int| 0 <= i < releases.len() && (#[trigger] releases[i]).sha256@ == sha256
}

fn is_held(releases: &[ReleaseRecord], sha256: &[u8]) -> (yes: bool)
    ensures
        yes == held(releases@, sha256@),
{
    let mut i: usize = 0;
    while i < releases.len()
        invariant
            i <= releases@.len(),
            forall|j: int| 0 <= j < i ==> (#[trigger] releases@[j]).sha256@ != sha256@,
        decreases releases.len() - i,
    {
        if same_bytes(&releases[i].sha256, sha256) {
            assert(held(releases@, sha256@));
            return true;
        }
        i = i + 1;
    }
    false
}

/// No more than one release of a product is on offer for a platform.
pub open spec fn one_offer(releases: Seq<ReleaseRecord>) -> bool {
    forall|i: int, j: int|
        0 <= i < j < releases.len() && (#[trigger] releases[i]).product@ == (
        #[trigger] releases[j]).product@ && releases[i].platform@ == releases[j].platform@ ==> !(
        releases[i].offered && releases[j].offered)
}

/// The releases but number `id`.
pub open spec fn releases_but(id: i64) -> spec_fn(ReleaseRecord) -> bool {
    |release: ReleaseRecord| release.id != id
}

/// The releases, with the one at `at` on offer and no other of its product
/// for its platform.
pub open spec fn offering(releases: Seq<ReleaseRecord>, at: int) -> Seq<ReleaseRecord> {
    Seq::new(
        releases.len(),
        |i: int|
            if i == at {
                ReleaseRecord { offered: true, ..releases[i] }
            } else if releases[i].product@ == releases[at].product@ && releases[i].platform@
                == releases[at].platform@ {
                ReleaseRecord { offered: false, ..releases[i] }
            } else {
                releases[i]
            },
    )
}

/// Where the release of a product on offer for a platform is; -1 if none is.
pub open spec fn offered_at(
    releases: Seq<ReleaseRecord>,
    product: Seq<char>,
    platform: Seq<char>,
) -> int
    decreases releases.len(),
{
    if releases.len() == 0 {
        -1
    } else if releases.last().product@ == product && releases.last().platform@ == platform
        && releases.last().offered {
        releases.len() - 1
    } else {
        offered_at(releases.drop_last(), product, platform)
    }
}

/// The releases this server holds.
#[derive(Debug)]
pub struct Releases {
    pub releases: Vec<ReleaseRecord>,
    /// The release key's public half.
    pub key: [u8; 32],
}

impl Releases {
    pub fn new(releases: Vec<ReleaseRecord>, key: [u8; 32]) -> (held: Releases)
        ensures
            held.releases@ == releases@,
            held.key == key,
    {
        Releases { releases, key }
    }

    /// A package that the release key signed as this.
    pub open spec fn genuine(&self, signed: &Signed, context: Seq<u8>, package: Seq<u8>) -> bool {
        &&& signature_holds(
            context,
            signed.release.release@,
            signed.release.signature@,
            self.key@,
        )
        &&& signed.described matches Some(release) && describes(&release, package)
    }

    /// What `add` does.
    pub open spec fn add_does(
        before: &Releases,
        after: &Releases,
        package: &[u8],
        signature: Result<Signed, String>,
        context: &[u8],
        now: i64,
        added: Result<Listed, Refused>,
    ) -> bool {
        &&& after.key == before.key
        &&& one_offer(before.releases@) ==> one_offer(after.releases@)
        &&& match added {
            Ok(shown) => {
                let record = after.releases@.last();
                &&& signature matches Ok(signed)
                &&& before.genuine(&signed, context@, package@)
                &&& signed.described matches Some(release)
                &&& !held(before.releases@, release.sha256@)
                &&& after.releases@.len() == before.releases@.len() + 1
                &&& after.releases@.drop_last() == before.releases@
                &&& next_id(before.releases@) == Some(record.id)
                &&& record.product@ == release.product@
                &&& record.platform@ == release.platform@
                &&& record.version@ == release.version.written()
                &&& record.number == Some(release.version)
                &&& record.package@ == package_called(release.package)
                &&& record.sha256@ == release.sha256@
                &&& record.size == release.size as i64
                &&& record.signature@ == signed.text@
                &&& record.uploaded_at == now
                &&& !record.offered
                &&& shown.shows(&record)
            },
            Err(refused) => {
                &&& after.releases == before.releases
                &&& match signature {
                    Err(why) => refused matches Refused::Invalid(said) && said@
                        == "not a signature file: "@ + why@,
                    Ok(signed) => if !signature_holds(
                        context@,
                        signed.release.release@,
                        signed.release.signature@,
                        before.key@,
                    ) {
                        refused matches Refused::Invalid(said) && said@
                            == Invalid::Signature.says() + ": not a Nearhand release"@
                    } else {
                        match signed.described {
                            None => refused matches Refused::Invalid(said) && said@
                                == Invalid::Malformed.says() + ": not a Nearhand release"@,
                            Some(release) => if !describes(&release, package@) {
                                refused matches Refused::Invalid(said) && said@
                                    == "the package is not the one that was signed"@
                            } else if held(before.releases@, release.sha256@) {
                                refused matches Refused::Invalid(said) && said@
                                    == "this package is here already"@
                            } else {
                                refused.is_internal() && next_id(before.releases@) is None
                            },
                        }
                    },
                }
            },
        }
    }

    /// Take `package`, if the signature file that came with it is the release
    /// key's signature over it. `signature` is that file, or why it is none.
    pub fn add(
        &mut self,
        package: &[u8],
        signature: Result<Signed, String>,
        context: &[u8],
        now: i64,
    ) -> (added: Result<Listed, Refused>)
        requires
            hashable(package@.len()),
            signature matches Ok(signed) ==> hashable((context@ + signed.release.release@).len()),
        ensures
            Releases::add_does(old(self), final(self), package, signature, context, now, added),
    {
        let signed = match signature {
            Ok(signed) => signed,
            Err(why) => {
                let mut said = "not a signature file: ".to_owned();
                said.append(&why);
                return Err(Refused::Invalid(said));
            },
        };
        let release = match verify(&signed.release, context, signed.described, &self.key) {
            Ok(release) => release,
            Err(invalid) => {
                let mut said = invalid.message().to_owned();
                said.append(": not a Nearhand release");
                return Err(Refused::Invalid(said));
            },
        };
        if check_package(&release, package).is_err() {
            return Err(
                Refused::Invalid("the package is not the one that was signed".to_owned()),
            );
        }
        if is_held(&self.releases, release.sha256.as_slice()) {
            return Err(Refused::Invalid("this package is here already".to_owned()));
        }
        let id = match fresh_id(&self.releases) {
            Some(id) => id,
            None => {
                return Err(internal());
            },
        };
        let record = ReleaseRecord {
            id,
            product: release.product.as_str().to_owned(),
            platform: release.platform.as_str().to_owned(),
            version: release.version.text(),
            number: Some(release.version),
            package: package_name(&release.package).to_owned(),
            sha256: copy_bytes(release.sha256.as_slice()),
            size: release.size as i64,
            signature: signed.text,
            uploaded_at: now,
            offered: false,
        };
        let shown = listed(&record);
        let ghost before = self.releases@;
        self.releases.push(record);
        assert(self.releases@.drop_last() =~= before);
        assert(forall|k: int| 0 <= k < before.len() ==> before[k] == #[trigger] self.releases@[k]);
        Ok(shown)
    }

    /// Every release held, newest version first.
    pub fn list(&self) -> (all: Vec<Listed>)
        ensures
            exists|order: Seq<usize>|
                {
                    &&& #[trigger] places(self.releases@, order)
                    &&& all@.len() == order.len()
                    &&& forall|i: int|
                        0 <= i < all@.len() ==> (#[trigger] all@[i]).shows(
                            &self.releases@[order[i] as int],
                        )
                },
    {
        let order = in_order(&self.releases);
        let mut all: Vec<Listed> = Vec::new();
        let mut i: usize = 0;
        while i < order.len()
            invariant
                i <= order@.len(),
                places(self.releases@, order@),
                all@.len() == i,
                forall|j: int|
                    0 <= j < i ==> (#[trigger] all@[j]).shows(&self.releases@[order@[j] as int]),
            decreases order.len() - i,
        {
            all.push(listed(&self.releases[order[i]]));
            i = i + 1;
        }
        all
    }

    pub fn release(&self, id: i64) -> (release: Result<Listed, Refused>)
        ensures
            match release {
                Ok(shown) => at(self.releases@, id) >= 0 && shown.shows(
                    &self.releases@[at(self.releases@, id)],
                ),
                Err(refused) => refused is NotFound && at(self.releases@, id) < 0,
            },
    {
        match find(&self.releases, id) {
            Some(i) => Ok(listed(&self.releases[i])),
            None => Err(Refused::NotFound),
        }
    }

    /// What `offer` does.
    pub open spec fn offer_does(
        before: &Releases,
        after: &Releases,
        id: i64,
        offered: Result<Listed, Refused>,
    ) -> bool {
        &&& after.key == before.key
        &&& one_offer(before.releases@) ==> one_offer(after.releases@)
        &&& {
            let i = at(before.releases@, id);
            match offered {
                Ok(shown) => i >= 0 && after.releases@ == offering(
                    before.releases@,
                    i,
                ) && shown.shows(&after.releases@[i]),
                Err(refused) => refused is NotFound && i < 0 && after.releases == before.releases,
            }
        }
    }

    /// Offer release `id` to its product and platform's agents, in place of
    /// whichever was offered.
    pub fn offer(&mut self, id: i64) -> (offered: Result<Listed, Refused>)
        ensures
            Releases::offer_does(old(self), final(self), id, offered),
    {
        let chosen: usize = match find(&self.releases, id) {
            Some(i) => i,
            None => {
                return Err(Refused::NotFound);
            },
        };
        let product = self.releases[chosen].product.as_str().to_owned();
        let platform = self.releases[chosen].platform.as_str().to_owned();
        let ghost before = self.releases@;
        let ghost wanted = offering(before, chosen as int);
        let mut n: usize = 0;
        while n < self.releases.len()
            invariant
                self.key == old(self).key,
                before == old(self).releases@,
                chosen < before.len(),
                n <= self.releases@.len(),
                self.releases@.len() == before.len(),
                product@ == before[chosen as int].product@,
                platform@ == before[chosen as int].platform@,
                wanted == offering(before, chosen as int),
                forall|i: int| 0 <= i < n ==> #[trigger] self.releases@[i] == wanted[i],
                forall|i: int|
                    n <= i < self.releases@.len() ==> #[trigger] self.releases@[i] == before[i],
            decreases self.releases.len() - n,
        {
            if n == chosen {
                self.releases[n].offered = true;
            } else if same_text(&self.releases[n].product, &product) && same_text(
                &self.releases[n].platform,
                &platform,
            ) {
                self.releases[n].offered = false;
            }
            n = n + 1;
        }
        proof {
            assert(self.releases@ =~= wanted);
            lemma_offering_one(before, chosen as int);
        }
        Ok(listed(&self.releases[chosen]))
    }

    /// What `withdraw` does.
    pub open spec fn withdraw_does(
        before: &Releases,
        after: &Releases,
        id: i64,
        withdrawn: Result<Listed, Refused>,
    ) -> bool {
        &&& after.key == before.key
        &&& one_offer(before.releases@) ==> one_offer(after.releases@)
        &&& {
            let i = at(before.releases@, id);
            match withdrawn {
                Ok(shown) => {
                    &&& i >= 0
                    &&& after.releases@ == before.releases@.update(
                        i,
                        ReleaseRecord { offered: false, ..before.releases@[i] },
                    )
                    &&& shown.shows(&after.releases@[i])
                },
                Err(refused) => refused is NotFound && i < 0 && after.releases == before.releases,
            }
        }
    }

    /// Stop offering release `id`.
    pub fn withdraw(&mut self, id: i64) -> (withdrawn: Result<Listed, Refused>)
        ensures
            Releases::withdraw_does(old(self), final(self), id, withdrawn),
    {
        let i: usize = match find(&self.releases, id) {
            Some(i) => i,
            None => {
                return Err(Refused::NotFound);
            },
        };
        let ghost before = self.releases@;
        self.releases[i].offered = false;
        proof {
            assert(self.releases@ =~= before.update(
                i as int,
                ReleaseRecord { offered: false, ..before[i as int] },
            ));
            if one_offer(before) {
                assert forall|a: int, b: int|
                    0 <= a < b < self.releases@.len() && (#[trigger] self.releases@[a]).product@
                        == (#[trigger] self.releases@[b]).product@ && self.releases@[a].platform@
                        == self.releases@[b].platform@ implies !(self.releases@[a].offered
                    && self.releases@[b].offered) by {
                    assert(before[a].product@ == self.releases@[a].product@);
                    assert(before[b].product@ == self.releases@[b].product@);
                }
            }
        }
        Ok(listed(&self.releases[i]))
    }

    /// What `delete` does.
    pub open spec fn delete_does(
        before: &Releases,
        after: &Releases,
        id: i64,
        deleted: Result<Listed, Refused>,
    ) -> bool {
        &&& after.key == before.key
        &&& one_offer(before.releases@) ==> one_offer(after.releases@)
        &&& {
            let i = at(before.releases@, id);
            match deleted {
                Ok(shown) => {
                    &&& i >= 0 && !before.releases@[i].offered
                    &&& shown.shows(&before.releases@[i])
                    &&& after.releases@ == before.releases@.filter(releases_but(id))
                },
                Err(refused) => {
                    &&& after.releases == before.releases
                    &&& if i < 0 {
                        refused is NotFound
                    } else {
                        &&& before.releases@[i].offered
                        &&& refused matches Refused::Invalid(why) && why@
                            == "withdraw the release before deleting it"@
                    }
                },
            }
        }
    }

    /// Forget release `id`; its package is the caller's to delete. Not while
    /// it is offered: agents may be fetching it.
    pub fn delete(&mut self, id: i64) -> (deleted: Result<Listed, Refused>)
        ensures
            Releases::delete_does(old(self), final(self), id, deleted),
    {
        let i: usize = match find(&self.releases, id) {
            Some(i) => i,
            None => {
                return Err(Refused::NotFound);
            },
        };
        if self.releases[i].offered {
            return Err(Refused::Invalid("withdraw the release before deleting it".to_owned()));
        }
        let shown = listed(&self.releases[i]);
        let mut releases: Vec<ReleaseRecord> = Vec::new();
        std::mem::swap(&mut releases, &mut self.releases);
        let stays = |release: &ReleaseRecord| -> (yes: bool)
            ensures
                yes == (release.id != id),
            {
                release.id != id
            };
        self.releases = keep(releases, stays, Ghost(releases_but(id)));
        proof {
            if one_offer(old(self).releases@) {
                lemma_one_offer_kept(old(self).releases@, releases_but(id));
            }
        }
        Ok(shown)
    }

    /// The signature file of the release on offer to a product and platform.
    pub fn on_offer(&self, product: &str, platform: &str) -> (signature: Option<String>)
        ensures
            ({
                let i = offered_at(self.releases@, product@, platform@);
                match signature {
                    Some(signature) => 0 <= i < self.releases@.len() && signature@
                        == self.releases@[i].signature@,
                    None => i < 0,
                }
            }),
    {
        let mut n: usize = self.releases.len();
        assert(self.releases@.take(n as int) =~= self.releases@);
        while n > 0
            invariant
                n <= self.releases@.len(),
                offered_at(self.releases@, product@, platform@) == offered_at(
                    self.releases@.take(n as int),
                    product@,
                    platform@,
                ),
            decreases n,
        {
            assert(self.releases@.take(n as int).drop_last() =~= self.releases@.take(n - 1));
            n = n - 1;
            if same_text(&self.releases[n].product, product) && same_text(
                &self.releases[n].platform,
                platform,
            ) && self.releases[n].offered {
                return Some(self.releases[n].signature.as_str().to_owned());
            }
        }
        None
    }

    /// What `offer_for` answers.
    pub open spec fn answers(
        &self,
        signature: Option<Result<Signed, String>>,
        context: Seq<u8>,
        version: Version,
        offer: Result<Option<Offer>, Refused>,
    ) -> bool {
        match signature {
            None => offer matches Ok(none) && none is None,
            Some(Err(_)) => offer matches Err(refused) && refused.is_internal(),
            Some(Ok(signed)) => if !signature_holds(
                context,
                signed.release.release@,
                signed.release.signature@,
                self.key@,
            ) || signed.described is None {
                offer matches Err(refused) && refused.is_internal()
            } else {
                let release = signed.described->Some_0;
                if release.version.newer(&version) {
                    &&& offer matches Ok(Some(offer))
                    &&& offer.release == release
                    &&& offer.signed == signed.release
                    &&& offer.file@ == hex_of(release.sha256@) + ".pkg"@
                } else {
                    offer matches Ok(none) && none is None
                }
            },
        }
    }

    /// What an agent running `version` is offered: the release on offer, if
    /// it is newer than that. `signature` is the signature file of that
    /// release, read back; checked on the way in, it is checked again, since
    /// it was kept in between and agents will check it anyway.
    pub fn offer_for(
        &self,
        signature: Option<Result<Signed, String>>,
        context: &[u8],
        version: Version,
    ) -> (offer: Result<Option<Offer>, Refused>)
        requires
            signature matches Some(Ok(signed)) ==> hashable(
                (context@ + signed.release.release@).len(),
            ),
        ensures
            self.answers(signature, context@, version, offer),
    {
        let signed = match signature {
            None => {
                return Ok(None);
            },
            Some(Err(_)) => {
                return Err(internal());
            },
            Some(Ok(signed)) => signed,
        };
        let release = match verify(&signed.release, context, signed.described, &self.key) {
            Ok(release) => release,
            Err(_) => {
                return Err(internal());
            },
        };
        if !release.version.is_newer(&version) {
            return Ok(None);
        }
        let file = file_name(release.sha256.as_slice());
        Ok(Some(Offer { release, signed: signed.release, file }))
    }
}

proof fn lemma_offering_one(releases: Seq<ReleaseRecord>, at: int)
    requires
        0 <= at < releases.len(),
    ensures
        one_offer(releases) ==> one_offer(offering(releases, at)),
{
    let after = offering(releases, at);
    if one_offer(releases) {
        assert forall|i: int, j: int|
            0 <= i < j < after.len() && (#[trigger] after[i]).product@ == (
            #[trigger] after[j]).product@ && after[i].platform@ == after[j].platform@ implies !(
        after[i].offered && after[j].offered) by {
            assert(releases[i].product@ == after[i].product@);
            assert(releases[j].product@ == after[j].product@);
        }
    }
}

proof fn lemma_one_offer_kept(releases: Seq<ReleaseRecord>, which: spec_fn(ReleaseRecord) -> bool)
    requires
        one_offer(releases),
    ensures
        one_offer(releases.filter(which)),
    decreases releases.len(),
{
    reveal(Seq::filter);
    if releases.len() > 0 {
        let less = releases.drop_last();
        assert(forall|k: int| 0 <= k < less.len() ==> less[k] == #[trigger] releases[k]);
        assert(one_offer(less)) by {
            assert forall|i: int, j: int|
                0 <= i < j < less.len() && (#[trigger] less[i]).product@ == (
                #[trigger] less[j]).product@ && less[i].platform@ == less[j].platform@ implies !(
            less[i].offered && less[j].offered) by {
                assert(releases[i] == less[i] && releases[j] == less[j]);
            }
        }
        lemma_one_offer_kept(less, which);
        lemma_kept(less, which);
        let all = releases.filter(which);
        let kept = less.filter(which);
        assert forall|i: int, j: int|
            0 <= i < j < all.len() && (#[trigger] all[i]).product@ == (
            #[trigger] all[j]).product@ && all[i].platform@ == all[j].platform@ implies !(
        all[i].offered && all[j].offered) by {
            assert(all[i] == kept[i]);
            if j < kept.len() {
                assert(all[j] == kept[j]);
            } else {
                let m = choose|m: int| 0 <= m < less.len() && less[m] == kept[i];
                assert(releases[m] == kept[i]);
                assert(all[j] == releases[releases.len() - 1]);
            }
        }
    }
}

// --- After any run of changes ------------------------------------------------------------------

/// A change to the releases that are held, asked for.
pub enum Step {
    /// A package came, with a signature file.
    Add,
    Offer(i64),
    Withdraw(i64),
    Delete(i64),
}

/// What a step asks for was done, or refused.
pub open spec fn leads(before: &Releases, step: Step, after: &Releases) -> bool {
    match step {
        Step::Add => exists|
            package: &[u8],
            signature: Result<Signed, String>,
            context: &[u8],
            now: i64,
            added: Result<Listed, Refused>,
        | #[trigger]
            Releases::add_does(before, after, package, signature, context, now, added),
        Step::Offer(id) => exists|offered: Result<Listed, Refused>| #[trigger]
            Releases::offer_does(before, after, id, offered),
        Step::Withdraw(id) => exists|withdrawn: Result<Listed, Refused>| #[trigger]
            Releases::withdraw_does(before, after, id, withdrawn),
        Step::Delete(id) => exists|deleted: Result<Listed, Refused>| #[trigger]
            Releases::delete_does(before, after, id, deleted),
    }
}

/// Step `i` of a run leads from its state to the next.
pub open spec fn taken(states: Seq<Releases>, steps: Seq<Step>, i: int) -> bool {
    leads(&states[i], steps[i], &states[i + 1])
}

/// The states that a run of steps goes through, the first being where it
/// begins: where no two releases have the same number, nor two of a product
/// are on offer for a platform.
pub open spec fn run(states: Seq<Releases>, steps: Seq<Step>) -> bool {
    &&& states.len() == steps.len() + 1
    &&& numbered(states[0].releases@)
    &&& one_offer(states[0].releases@)
    &&& forall|i: int| 0 <= i < steps.len() ==> #[trigger] taken(states, steps, i)
}

/// A step that puts a release of a product on offer for a platform.
pub open spec fn puts(
    before: &Releases,
    step: Step,
    product: Seq<char>,
    platform: Seq<char>,
) -> bool {
    &&& step matches Step::Offer(id)
    &&& at(before.releases@, id) >= 0
    &&& before.releases@[at(before.releases@, id)].product@ == product
    &&& before.releases@[at(before.releases@, id)].platform@ == platform
}

/// Steps `from` up to `to` put no release of a product on offer for a
/// platform.
pub open spec fn puts_none(
    states: Seq<Releases>,
    steps: Seq<Step>,
    from: int,
    to: int,
    product: Seq<char>,
    platform: Seq<char>,
) -> bool {
    forall|i: int|
        from <= i < to ==> !puts(#[trigger] &states[i], #[trigger] steps[i], product, platform)
}

/// One of the steps `from` up to `to` withdraws release `id`.
pub open spec fn withdrawn(steps: Seq<Step>, from: int, to: int, id: i64) -> bool {
    exists|i: int| from <= i < to && #[trigger] steps[i] == Step::Withdraw(id)
}

/// One of the steps `from` up to `to` deletes release `id`.
pub open spec fn deleted(steps: Seq<Step>, from: int, to: int, id: i64) -> bool {
    exists|i: int| from <= i < to && #[trigger] steps[i] == Step::Delete(id)
}

/// This release is what agents of a product are offered on a platform.
spec fn is_on_offer(release: ReleaseRecord, product: Seq<char>, platform: Seq<char>) -> bool {
    release.product@ == product && release.platform@ == platform && release.offered
}

proof fn lemma_offered_at(releases: Seq<ReleaseRecord>, product: Seq<char>, platform: Seq<char>)
    ensures
        ({
            let i = offered_at(releases, product, platform);
            &&& -1 <= i < releases.len()
            &&& i >= 0 ==> is_on_offer(releases[i], product, platform)
            &&& i < 0 ==> forall|j: int|
                0 <= j < releases.len() ==> !is_on_offer(#[trigger] releases[j], product, platform)
        }),
    decreases releases.len(),
{
    if releases.len() > 0 && !is_on_offer(releases.last(), product, platform) {
        let less = releases.drop_last();
        lemma_offered_at(less, product, platform);
        if offered_at(less, product, platform) < 0 {
            assert forall|j: int| 0 <= j < releases.len() implies !is_on_offer(
                #[trigger] releases[j],
                product,
                platform,
            ) by {
                if j < less.len() {
                    assert(less[j] == releases[j]);
                }
            }
        }
    }
}

/// With one offer for each, the release on offer is where it is looked up.
proof fn lemma_offered_own(
    releases: Seq<ReleaseRecord>,
    product: Seq<char>,
    platform: Seq<char>,
    i: int,
)
    requires
        one_offer(releases),
        0 <= i < releases.len(),
        is_on_offer(releases[i], product, platform),
    ensures
        offered_at(releases, product, platform) == i,
{
    lemma_offered_at(releases, product, platform);
    let j = offered_at(releases, product, platform);
    assert(releases[j].product@ == releases[i].product@);
}

/// What every step keeps.
proof fn lemma_step_keeps(before: &Releases, step: Step, after: &Releases)
    requires
        numbered(before.releases@),
        one_offer(before.releases@),
        leads(before, step, after),
    ensures
        numbered(after.releases@),
        one_offer(after.releases@),
        after.key == before.key,
{
    let (old_rows, new_rows) = (before.releases@, after.releases@);
    match step {
        Step::Add => {
            if new_rows != old_rows {
                let record = new_rows.last();
                assert(new_rows =~= old_rows.push(record));
                assert(next_id(old_rows) == Some(record.id));
                lemma_next_is_above(old_rows);
                lemma_numbered_push(old_rows, record);
            }
        },
        Step::Offer(id) => {
            assert forall|i: int, j: int| 0 <= i < j < new_rows.len() implies (
            #[trigger] new_rows[i]).key() != (#[trigger] new_rows[j]).key() by {
                assert(old_rows[i].key() != old_rows[j].key());
            }
        },
        Step::Withdraw(id) => {
            lemma_at(old_rows, id);
            assert forall|i: int, j: int| 0 <= i < j < new_rows.len() implies (
            #[trigger] new_rows[i]).key() != (#[trigger] new_rows[j]).key() by {
                assert(old_rows[i].key() != old_rows[j].key());
            }
        },
        Step::Delete(id) => {
            lemma_numbered_kept(old_rows, releases_but(id));
        },
    }
}

proof fn lemma_run_keeps(states: Seq<Releases>, steps: Seq<Step>, n: int)
    requires
        run(states, steps),
        0 <= n <= steps.len(),
    ensures
        numbered(states[n].releases@),
        one_offer(states[n].releases@),
        states[n].key == states[0].key,
    decreases n,
{
    if n > 0 {
        lemma_run_keeps(states, steps, n - 1);
        assert(taken(states, steps, n - 1));
        lemma_step_keeps(&states[n - 1], steps[n - 1], &states[n]);
    }
}

/// A step that puts nothing else on offer leaves what is, unless it withdraws
/// it.
proof fn lemma_step_leaves_the_offer(
    before: &Releases,
    step: Step,
    after: &Releases,
    product: Seq<char>,
    platform: Seq<char>,
)
    requires
        numbered(before.releases@),
        one_offer(before.releases@),
        leads(before, step, after),
        !puts(before, step, product, platform),
    ensures
        ({
            let i = offered_at(before.releases@, product, platform);
            let j = offered_at(after.releases@, product, platform);
            if i >= 0 && step != Step::Withdraw(before.releases@[i].id) {
                0 <= j < after.releases@.len() && after.releases@[j] == before.releases@[i]
            } else {
                j == -1
            }
        }),
{
    let (old_rows, new_rows) = (before.releases@, after.releases@);
    let i = offered_at(old_rows, product, platform);
    lemma_step_keeps(before, step, after);
    lemma_offered_at(old_rows, product, platform);
    lemma_offered_at(new_rows, product, platform);
    if i >= 0 {
        lemma_at_own(old_rows, i);
        assert forall|j: int|
            0 <= j < old_rows.len() && j != i implies !is_on_offer(
            #[trigger] old_rows[j],
            product,
            platform,
        ) by {
            if is_on_offer(old_rows[j], product, platform) {
                lemma_offered_own(old_rows, product, platform, j);
            }
        }
    }
    if new_rows != old_rows {
        match step {
            Step::Add => {
                assert(new_rows =~= old_rows.push(new_rows.last()));
                if i >= 0 {
                    assert(new_rows[i] == old_rows[i]);
                    lemma_offered_own(new_rows, product, platform, i);
                } else {
                    let j = offered_at(new_rows, product, platform);
                    if j >= 0 {
                        assert(new_rows[j] == old_rows[j]);
                    }
                }
            },
            Step::Offer(id) => {
                let chosen = at(old_rows, id);
                lemma_at(old_rows, id);
                if i >= 0 {
                    assert(new_rows[i] == old_rows[i]);
                    lemma_offered_own(new_rows, product, platform, i);
                } else {
                    let j = offered_at(new_rows, product, platform);
                    if j >= 0 {
                        assert(j != chosen);
                        assert(new_rows[j] == old_rows[j]);
                    }
                }
            },
            Step::Withdraw(id) => {
                let chosen = at(old_rows, id);
                lemma_at(old_rows, id);
                if i >= 0 && old_rows[i].id != id {
                    assert(new_rows[i] == old_rows[i]);
                    lemma_offered_own(new_rows, product, platform, i);
                } else {
                    let j = offered_at(new_rows, product, platform);
                    if j >= 0 {
                        assert(j != chosen);
                        assert(new_rows[j] == old_rows[j]);
                    }
                }
            },
            Step::Delete(id) => {
                lemma_at(old_rows, id);
                lemma_kept(old_rows, releases_but(id));
                if i >= 0 {
                    assert(releases_but(id)(old_rows[i]));
                    let j = choose|j: int| 0 <= j < new_rows.len() && new_rows[j] == old_rows[i];
                    lemma_offered_own(new_rows, product, platform, j);
                } else {
                    let j = offered_at(new_rows, product, platform);
                    if j >= 0 {
                        assert(old_rows.contains(new_rows[j]));
                        let m = choose|m: int|
                            0 <= m < old_rows.len() && old_rows[m] == new_rows[j];
                        assert(!is_on_offer(old_rows[m], product, platform));
                    }
                }
            },
        }
    } else if i >= 0 && step == Step::Withdraw(old_rows[i].id) {
        assert(new_rows[i].offered);
    }
}

/// While no other release of a product is put on offer for a platform, the
/// one that is stays so until it is withdrawn; and where none is, none is.
pub proof fn lemma_an_offer_stands(
    states: Seq<Releases>,
    steps: Seq<Step>,
    from: int,
    to: int,
    product: Seq<char>,
    platform: Seq<char>,
)
    requires
        run(states, steps),
        0 <= from <= to <= steps.len(),
        puts_none(states, steps, from, to, product, platform),
    ensures
        ({
            let i = offered_at(states[from].releases@, product, platform);
            let j = offered_at(states[to].releases@, product, platform);
            if i >= 0 && !withdrawn(steps, from, to, states[from].releases@[i].id) {
                &&& 0 <= j < states[to].releases@.len()
                &&& states[to].releases@[j] == states[from].releases@[i]
            } else {
                j == -1
            }
        }),
    decreases to - from,
{
    lemma_offered_at(states[from].releases@, product, platform);
    if from < to {
        let n = to - 1;
        let i = offered_at(states[from].releases@, product, platform);
        let id = states[from].releases@[i].id;
        lemma_an_offer_stands(states, steps, from, n, product, platform);
        lemma_run_keeps(states, steps, n);
        assert(taken(states, steps, n));
        assert(!puts(&states[n], steps[n], product, platform));
        lemma_step_leaves_the_offer(&states[n], steps[n], &states[to], product, platform);
        if withdrawn(steps, from, n, id) {
            let w = choose|w: int| from <= w < n && #[trigger] steps[w] == Step::Withdraw(id);
            assert(steps[w] == Step::Withdraw(id));
            assert(withdrawn(steps, from, to, id));
        } else if steps[n] == Step::Withdraw(id) {
            assert(withdrawn(steps, from, to, id));
        } else {
            assert(!withdrawn(steps, from, to, id));
        }
    }
}

/// Whatever is asked of the releases, what a product's agents on a platform
/// are offered is the release that was last put on offer to them, as it was
/// then; or nothing, if it was withdrawn since.
pub proof fn lemma_the_last_offer_stands(
    states: Seq<Releases>,
    steps: Seq<Step>,
    last: int,
    id: i64,
    product: Seq<char>,
    platform: Seq<char>,
)
    requires
        run(states, steps),
        0 <= last < steps.len(),
        steps[last] == Step::Offer(id),
        puts(&states[last], steps[last], product, platform),
        puts_none(states, steps, last + 1, steps.len() as int, product, platform),
    ensures
        ({
            let before = states[last].releases@;
            let after = states.last().releases@;
            let i = offered_at(after, product, platform);
            if withdrawn(steps, last + 1, steps.len() as int, id) {
                i == -1
            } else {
                &&& 0 <= i < after.len()
                &&& i == at(after, id)
                &&& after[i] == ReleaseRecord { offered: true, ..before[at(before, id)] }
            }
        }),
{
    let before = states[last].releases@;
    let offered = states[last + 1].releases@;
    let chosen = at(before, id);
    lemma_at(before, id);
    assert(taken(states, steps, last));
    assert(offered == offering(before, chosen));
    lemma_run_keeps(states, steps, last + 1);
    lemma_offered_own(offered, product, platform, chosen);
    lemma_an_offer_stands(states, steps, last + 1, steps.len() as int, product, platform);
    lemma_run_keeps(states, steps, steps.len() as int);
    let after = states.last().releases@;
    let i = offered_at(after, product, platform);
    if i >= 0 {
        lemma_offered_at(after, product, platform);
        lemma_at_own(after, i);
    }
}

/// One release twice, on offer or not.
spec fn same_release(a: ReleaseRecord, b: ReleaseRecord) -> bool {
    ReleaseRecord { offered: false, ..a } == ReleaseRecord { offered: false, ..b }
}

proof fn lemma_a_release_stays(
    states: Seq<Releases>,
    steps: Seq<Step>,
    from: int,
    to: int,
    id: i64,
)
    requires
        run(states, steps),
        0 <= from <= to <= steps.len(),
        at(states[from].releases@, id) >= 0,
        !deleted(steps, from, to, id),
    ensures
        ({
            let (a, b) = (states[from].releases@, states[to].releases@);
            &&& at(b, id) >= 0
            &&& same_release(b[at(b, id)], a[at(a, id)])
        }),
    decreases to - from,
{
    if from < to {
        let n = to - 1;
        assert(!deleted(steps, from, n, id)) by {
            if deleted(steps, from, n, id) {
                let d = choose|d: int| from <= d < n && #[trigger] steps[d] == Step::Delete(id);
                assert(steps[d] == Step::Delete(id));
            }
        }
        lemma_a_release_stays(states, steps, from, n, id);
        lemma_run_keeps(states, steps, n);
        lemma_run_keeps(states, steps, to);
        assert(taken(states, steps, n));
        let (a, b) = (states[n].releases@, states[to].releases@);
        let i = at(a, id);
        lemma_at(a, id);
        assert(steps[n] != Step::Delete(id));
        if a != b {
            match steps[n] {
                Step::Add => {
                    assert(b =~= a.push(b.last()));
                    assert(b[i] == a[i]);
                    lemma_at_own(b, i);
                },
                Step::Offer(_) => {
                    assert(same_release(b[i], a[i]));
                    lemma_at_own(b, i);
                },
                Step::Withdraw(other) => {
                    lemma_at(a, other);
                    assert(same_release(b[i], a[i]));
                    lemma_at_own(b, i);
                },
                Step::Delete(other) => {
                    lemma_kept(a, releases_but(other));
                    assert(releases_but(other)(a[i]));
                    let j = choose|j: int| 0 <= j < b.len() && b[j] == a[i];
                    lemma_at_own(b, j);
                },
            }
        }
    }
}

/// Agents of a product on a platform are answered with the release that was
/// last put on offer to them. It was taken at step `came`, not deleted before
/// it was put on offer at step `last`, and no other was put on offer after
/// that. Unless it was withdrawn since, its signature file is the one on
/// offer, and whoever runs something older is offered that release, in the
/// file that its package is kept in; everyone else is offered nothing. A
/// signature file reads now as it did when it came.
pub proof fn lemma_agents_are_answered_with_what_is_on_offer(
    states: Seq<Releases>,
    steps: Seq<Step>,
    came: int,
    last: int,
    package: &[u8],
    signed: Signed,
    context: &[u8],
    now: i64,
    shown: Listed,
    signature: Option<Result<Signed, String>>,
    version: Version,
    answer: Result<Option<Offer>, Refused>,
)
    requires
        run(states, steps),
        0 <= came < last < steps.len(),
        Releases::add_does(
            &states[came],
            &states[came + 1],
            package,
            Ok(signed),
            context,
            now,
            Ok(shown),
        ),
        !deleted(steps, came + 1, last, shown.id),
        steps[last] == Step::Offer(shown.id),
        ({
            let release = signed.described->Some_0;
            let i = offered_at(states.last().releases@, release.product@, release.platform@);
            &&& puts_none(
                states,
                steps,
                last + 1,
                steps.len() as int,
                release.product@,
                release.platform@,
            )
            &&& i < 0 ==> signature is None
            &&& i >= 0 && states.last().releases@[i].signature@ == signed.text@ ==> signature
                == Some(Ok::<Signed, String>(signed))
        }),
        states.last().answers(signature, context@, version, answer),
    ensures
        ({
            let release = signed.described->Some_0;
            let gone = withdrawn(steps, last + 1, steps.len() as int, shown.id);
            let i = offered_at(states.last().releases@, release.product@, release.platform@);
            &&& gone <==> i < 0
            &&& !gone ==> states.last().releases@[i].signature@ == signed.text@
            &&& if !gone && release.version.newer(&version) {
                answer matches Ok(Some(offer)) && offer.release == release && offer.signed
                    == signed.release && offer.file@ == hex_of(release.sha256@) + ".pkg"@
            } else {
                answer matches Ok(none) && none is None
            }
        }),
{
    let release = signed.described->Some_0;
    let id = shown.id;
    let first = states[came + 1].releases@;
    lemma_run_keeps(states, steps, came);
    lemma_run_keeps(states, steps, came + 1);
    lemma_run_keeps(states, steps, steps.len() as int);
    lemma_at_own(first, first.len() - 1);
    lemma_a_release_stays(states, steps, came + 1, last, id);
    let before = states[last].releases@;
    let record = before[at(before, id)];
    assert(record.product == first.last().product);
    assert(record.platform == first.last().platform);
    assert(record.signature == first.last().signature);
    lemma_the_last_offer_stands(states, steps, last, id, release.product@, release.platform@);
}

/// Only what the release key signed is taken: whatever is taken is a package
/// of the length and hash that the release says, and the release's bytes bear
/// the key's signature. It is kept as what it says it is, not on offer, and no
/// package with its hash was here.
pub proof fn lemma_only_signed_packages_are_taken(
    before: Releases,
    after: Releases,
    package: &[u8],
    signature: Result<Signed, String>,
    context: &[u8],
    now: i64,
    shown: Listed,
)
    requires
        Releases::add_does(&before, &after, package, signature, context, now, Ok(shown)),
    ensures
        signature matches Ok(signed) && signed.described matches Some(release) && {
            let record = after.releases@[before.releases@.len() as int];
            &&& crate::crypto::ed25519_holds(
                before.key@,
                context@ + signed.release.release@,
                signed.release.signature@,
            )
            &&& package@.len() == release.size
            &&& crate::crypto::sha256_of(package@) == release.sha256@
            &&& record.product@ == release.product@ && record.platform@ == release.platform@
            &&& record.number == Some(release.version)
            &&& record.version@ == release.version.written()
            &&& record.sha256@ == crate::crypto::sha256_of(package@)
            &&& record.signature@ == signed.text@
            &&& !record.offered
            &&& shown.id == record.id && !shown.offered
            &&& forall|i: int|
                0 <= i < before.releases@.len() ==> (#[trigger] before.releases@[i]).sha256@
                    != release.sha256@ && after.releases@[i] == before.releases@[i]
        },
        after.releases@.len() == before.releases@.len() + 1,
{
    let old_rows = before.releases@;
    assert forall|i: int| 0 <= i < old_rows.len() implies (#[trigger] old_rows[i]).sha256@
        != signature->Ok_0.described->Some_0.sha256@ && after.releases@[i] == old_rows[i] by {
        assert(after.releases@.drop_last()[i] == old_rows[i]);
    }
}

/// What is genuine and not here yet is taken, while there is a number for it.
pub proof fn lemma_signed_packages_are_taken(
    before: Releases,
    after: Releases,
    package: &[u8],
    signed: Signed,
    context: &[u8],
    now: i64,
    added: Result<Listed, Refused>,
    release: Release,
)
    requires
        Releases::add_does(&before, &after, package, Ok(signed), context, now, added),
        signed.described == Some(release),
        crate::crypto::ed25519_holds(
            before.key@,
            context@ + signed.release.release@,
            signed.release.signature@,
        ),
        package@.len() == release.size,
        crate::crypto::sha256_of(package@) == release.sha256@,
        forall|i: int|
            0 <= i < before.releases@.len() ==> (#[trigger] before.releases@[i]).sha256@
                != release.sha256@ && before.releases@[i].id < i64::MAX,
    ensures
        added is Ok,
{
    lemma_room(before.releases@);
}

proof fn lemma_room(releases: Seq<ReleaseRecord>)
    requires
        forall|i: int| 0 <= i < releases.len() ==> (#[trigger] releases[i]).id < i64::MAX,
    ensures
        next_id(releases) is Some,
    decreases releases.len(),
{
    if releases.len() > 0 {
        let less = releases.drop_last();
        assert forall|i: int| 0 <= i < less.len() implies (#[trigger] less[i]).id < i64::MAX by {
            assert(less[i] == releases[i]);
        }
        lemma_room(less);
        assert(releases[releases.len() - 1].id < i64::MAX);
    }
}

/// Releases are listed by product, then by platform, and of one product for one
/// platform the newest first.
pub proof fn lemma_releases_are_listed_newest_first(a: ReleaseRecord, b: ReleaseRecord)
    ensures
        a.product@ == b.product@ && a.platform@ == b.platform@ && (a.number matches Some(x)
            && b.number matches Some(y) && (x.major > y.major || (x.major == y.major && x.minor
            > y.minor) || (x.major == y.major && x.minor == y.minor && x.patch > y.patch)))
            ==> a.ranks(&b) && !b.ranks(&a),
        a.product@ == b.product@ && a.platform@ == b.platform@ && a.number is Some && b.number is None
            ==> a.ranks(&b) && !b.ranks(&a),
        a.product@ == b.product@ && a.platform@ != b.platform@ && plain_at_most(
            a.platform@,
            b.platform@,
        ) && !plain_at_most(b.platform@, a.platform@) ==> a.ranks(&b) && !b.ranks(&a),
        a.product@ != b.product@ && plain_at_most(a.product@, b.product@) && !plain_at_most(
            b.product@,
            a.product@,
        ) ==> a.ranks(&b) && !b.ranks(&a),
{
    lemma_plain_total(a.product@, b.product@);
    lemma_plain_total(a.platform@, b.platform@);
}

/// A release that is offered is not deleted; another is, and only it.
pub proof fn lemma_deleting_takes_one(
    before: Releases,
    after: Releases,
    id: i64,
    deleted: Result<Listed, Refused>,
    release: ReleaseRecord,
)
    requires
        Releases::delete_does(&before, &after, id, deleted),
        numbered(before.releases@),
        before.releases@.contains(release),
    ensures
        release.id == id && release.offered ==> deleted is Err,
        release.id == id && !release.offered ==> deleted is Ok && !after.releases@.contains(release),
        release.id != id ==> after.releases@.contains(release),
{
    let i = choose|i: int| 0 <= i < before.releases@.len() && before.releases@[i] == release;
    lemma_at_own(before.releases@, i);
    lemma_at(before.releases@, id);
    lemma_kept(before.releases@, releases_but(id));
    if release.id != id && deleted is Ok {
        assert(releases_but(id)(before.releases@[i]));
    }
}

/// An agent is offered only what is newer than what it runs, and only with a
/// signature that holds; where what is on offer is not newer, or nothing is, it
/// is offered nothing.
pub proof fn lemma_only_newer_releases_are_offered(
    releases: Releases,
    signature: Option<Result<Signed, String>>,
    context: Seq<u8>,
    version: Version,
    offer: Result<Option<Offer>, Refused>,
)
    requires
        releases.answers(signature, context, version, offer),
    ensures
        offer matches Ok(Some(offered)) ==> {
            let theirs = offered.release.version;
            &&& theirs.major > version.major || (theirs.major == version.major && (theirs.minor
                > version.minor || (theirs.minor == version.minor && theirs.patch > version.patch)))
            &&& signature matches Some(Ok(signed)) && signed.release == offered.signed
                && signed.described == Some(offered.release) && signature_holds(
                context,
                signed.release.release@,
                signed.release.signature@,
                releases.key@,
            )
        },
        signature is None ==> (offer matches Ok(none) && none is None),
        signature matches Some(Ok(signed)) ==> (!signature_holds(
            context,
            signed.release.release@,
            signed.release.signature@,
            releases.key@,
        ) ==> offer is Err),
        signature matches Some(Ok(signed)) ==> (signature_holds(
            context,
            signed.release.release@,
            signed.release.signature@,
            releases.key@,
        ) ==> (signed.described matches Some(release) ==> (release.version == version
            ==> offer == Ok::<Option<Offer>, Refused>(None)))),
{
}

}
