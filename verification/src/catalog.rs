//! The provider/model catalog: which model endpoints a user has registered.
//!
//! The conversation orchestrator treats this as read-mostly reference data:
//! it resolves a model reference to the provider whose URL and credential the
//! backend call needs, enforcing that the provider belongs to the caller.

use vstd::prelude::*;

use crate::dto::ProviderWithModels;
use crate::error::AppError;
use crate::model::{clone_opt_string, Provider, ProviderModel};

verus! {

/// Whether some provider in `ps` carries the id.
pub open spec fn has_provider(ps: Seq<Provider>, id: u64) -> bool {
    exists|k: int| 0 <= k < ps.len() && #[trigger] ps[k].id == id
}

/// The first provider in `ps` carrying the id, if any.
pub open spec fn find_provider(ps: Seq<Provider>, id: u64) -> Option<Provider>
    decreases ps.len(),
{
    if ps.len() == 0 {
        None
    } else if ps[0].id == id {
        Some(ps[0])
    } else {
        find_provider(ps.drop_first(), id)
    }
}

/// The first model in `ms` carrying the id, if any.
pub open spec fn find_model(ms: Seq<ProviderModel>, id: u64) -> Option<ProviderModel>
    decreases ms.len(),
{
    if ms.len() == 0 {
        None
    } else if ms[0].id == id {
        Some(ms[0])
    } else {
        find_model(ms.drop_first(), id)
    }
}

/// Whether the user already has a provider under this name.
pub open spec fn has_provider_named(ps: Seq<Provider>, user_id: u64, name: Seq<char>) -> bool {
    exists|k: int|
        0 <= k < ps.len() && (#[trigger] ps[k]).user_id == user_id && ps[k].name@ == name
}

/// `find_provider` succeeds exactly when some provider carries the id, and
/// what it returns carries the id.
pub proof fn lemma_find_provider(ps: Seq<Provider>, id: u64)
    ensures
        (find_provider(ps, id) is Some) <==> has_provider(ps, id),
        find_provider(ps, id) matches Some(p) ==> p.id == id && ps.contains(p),
    decreases ps.len(),
{
    if ps.len() > 0 {
        if ps[0].id == id {
            assert(has_provider(ps, id));
        } else {
            lemma_find_provider(ps.drop_first(), id);
            if has_provider(ps, id) {
                let k = choose|k: int| 0 <= k < ps.len() && ps[k].id == id;
                assert(ps.drop_first()[k - 1] == ps[k]);
                assert(has_provider(ps.drop_first(), id));
            }
            if has_provider(ps.drop_first(), id) {
                let k = choose|k: int|
                    0 <= k < ps.drop_first().len() && ps.drop_first()[k].id == id;
                assert(ps[k + 1] == ps.drop_first()[k]);
                assert(has_provider(ps, id));
            }
            match find_provider(ps, id) {
                Some(p) => {
                    assert(ps.drop_first().contains(p));
                    let k = choose|k: int|
                        0 <= k < ps.drop_first().len() && ps.drop_first()[k] == p;
                    assert(ps[k + 1] == p);
                },
                None => {},
            }
        }
    }
}

/// If the first provider matching the id sits at index `k`, `find_provider`
/// returns it.
pub proof fn lemma_find_provider_at(ps: Seq<Provider>, id: u64, k: int)
    requires
        0 <= k < ps.len(),
        ps[k].id == id,
        forall|a: int| 0 <= a < k ==> #[trigger] ps[a].id != id,
    ensures
        find_provider(ps, id) == Some(ps[k]),
    decreases k,
{
    if k > 0 {
        assert(forall|a: int|
            0 <= a < k - 1 ==> #[trigger] ps.drop_first()[a].id == ps[a + 1].id);
        lemma_find_provider_at(ps.drop_first(), id, k - 1);
    }
}

/// `find_model` succeeds exactly when some model carries the id, and what it
/// returns carries the id.
pub proof fn lemma_find_model(ms: Seq<ProviderModel>, id: u64)
    ensures
        (find_model(ms, id) is Some) <==> exists|k: int|
            0 <= k < ms.len() && #[trigger] ms[k].id == id,
        find_model(ms, id) matches Some(m) ==> m.id == id && ms.contains(m),
    decreases ms.len(),
{
    if ms.len() > 0 {
        if ms[0].id == id {
        } else {
            lemma_find_model(ms.drop_first(), id);
            if exists|k: int| 0 <= k < ms.len() && #[trigger] ms[k].id == id {
                let k = choose|k: int| 0 <= k < ms.len() && ms[k].id == id;
                assert(ms.drop_first()[k - 1] == ms[k]);
            }
            if exists|k: int|
                0 <= k < ms.drop_first().len() && #[trigger] ms.drop_first()[k].id == id {
                let k = choose|k: int|
                    0 <= k < ms.drop_first().len() && ms.drop_first()[k].id == id;
                assert(ms[k + 1] == ms.drop_first()[k]);
            }
            match find_model(ms, id) {
                Some(m) => {
                    assert(ms.drop_first().contains(m));
                    let k = choose|k: int|
                        0 <= k < ms.drop_first().len() && ms.drop_first()[k] == m;
                    assert(ms[k + 1] == m);
                },
                None => {},
            }
        }
    }
}

/// If the first model matching the id sits at index `k`, `find_model`
/// returns it.
pub proof fn lemma_find_model_at(ms: Seq<ProviderModel>, id: u64, k: int)
    requires
        0 <= k < ms.len(),
        ms[k].id == id,
        forall|a: int| 0 <= a < k ==> #[trigger] ms[a].id != id,
    ensures
        find_model(ms, id) == Some(ms[k]),
    decreases k,
{
    if k > 0 {
        assert(forall|a: int|
            0 <= a < k - 1 ==> #[trigger] ms.drop_first()[a].id == ms[a + 1].id);
        lemma_find_model_at(ms.drop_first(), id, k - 1);
    }
}

/// The providers owned by one user.
pub open spec fn provider_of_user(user_id: u64) -> spec_fn(Provider) -> bool {
    |p: Provider| p.user_id == user_id
}

/// The models offered by one provider.
pub open spec fn model_of_provider(provider_id: u64) -> spec_fn(ProviderModel) -> bool {
    |m: ProviderModel| m.provider_id == provider_id
}

/// The providers that do not carry the id (what a delete leaves behind).
pub open spec fn other_providers(id: u64) -> spec_fn(Provider) -> bool {
    |p: Provider| p.id != id
}

/// The models that do not carry the id (what a delete leaves behind).
pub open spec fn other_models(id: u64) -> spec_fn(ProviderModel) -> bool {
    |m: ProviderModel| m.id != id
}

/// The models outside one provider (what a cascading delete leaves behind).
pub open spec fn models_outside(provider_id: u64) -> spec_fn(ProviderModel) -> bool {
    |m: ProviderModel| m.provider_id != provider_id
}

/// Whether the provider already offers a model under this remote model id.
pub open spec fn has_model_named(
    ms: Seq<ProviderModel>,
    provider_id: u64,
    model_id: Seq<char>,
) -> bool {
    exists|k: int|
        0 <= k < ms.len() && (#[trigger] ms[k]).provider_id == provider_id && ms[k].model_id@
            == model_id
}

/// A provider after a partial update: absent fields keep their value.
pub open spec fn provider_updated(
    p: Provider,
    name: Option<String>,
    url: Option<String>,
    key: Option<Option<String>>,
) -> Provider {
    Provider {
        id: p.id,
        user_id: p.user_id,
        name: match name {
            Some(n) => n,
            None => p.name,
        },
        url: match url {
            Some(u) => u,
            None => p.url,
        },
        key: match key {
            Some(k) => k,
            None => p.key,
        },
    }
}

/// A model after a partial update: absent fields keep their value.
pub open spec fn model_updated(
    m: ProviderModel,
    model_id: Option<String>,
    name: Option<String>,
) -> ProviderModel {
    ProviderModel {
        id: m.id,
        provider_id: m.provider_id,
        model_id: match model_id {
            Some(v) => v,
            None => m.model_id,
        },
        name: match name {
            Some(v) => v,
            None => m.name,
        },
    }
}

/// The provider list after the provider carrying `id` was updated.
pub open spec fn with_provider_updated(
    ps: Seq<Provider>,
    id: u64,
    name: Option<String>,
    url: Option<String>,
    key: Option<Option<String>>,
) -> Seq<Provider> {
    Seq::new(
        ps.len(),
        |i: int|
            if ps[i].id == id {
                provider_updated(ps[i], name, url, key)
            } else {
                ps[i]
            },
    )
}

/// The model list after the model carrying `id` was updated.
pub open spec fn with_model_updated(
    ms: Seq<ProviderModel>,
    id: u64,
    model_id: Option<String>,
    name: Option<String>,
) -> Seq<ProviderModel> {
    Seq::new(
        ms.len(),
        |i: int|
            if ms[i].id == id {
                model_updated(ms[i], model_id, name)
            } else {
                ms[i]
            },
    )
}

/// Filtering keeps a strictly increasing key strictly increasing, and every
/// kept element is one of the originals.
pub proof fn lemma_filter_keeps_key_order<A>(
    s: Seq<A>,
    pred: spec_fn(A) -> bool,
    key: spec_fn(A) -> u64,
)
    requires
        forall|i: int, j: int| 0 <= i < j < s.len() ==> key(#[trigger] s[i]) < key(#[trigger] s[j]),
    ensures
        forall|i: int, j: int|
            0 <= i < j < s.filter(pred).len() ==> key(#[trigger] s.filter(pred)[i]) < key(
                #[trigger] s.filter(pred)[j],
            ),
        forall|i: int| 0 <= i < s.filter(pred).len() ==> s.contains(#[trigger] s.filter(pred)[i]),
    decreases s.len(),
{
    reveal(Seq::filter);
    if s.len() > 0 {
        let prefix = s.drop_last();
        assert forall|i: int, j: int|
            0 <= i < j < prefix.len() implies key(#[trigger] prefix[i]) < key(
            #[trigger] prefix[j],
        ) by {
            assert(prefix[i] == s[i] && prefix[j] == s[j]);
            assert(key(s[i]) < key(s[j]));
        };
        lemma_filter_keeps_key_order(prefix, pred, key);
        let sub = prefix.filter(pred);
        assert forall|i: int| 0 <= i < sub.len() implies s.contains(#[trigger] sub[i]) by {
            assert(prefix.contains(sub[i]));
            let k = choose|k: int| 0 <= k < prefix.len() && prefix[k] == sub[i];
            assert(s[k] == sub[i]);
        };
        if pred(s.last()) {
            let out = sub.push(s.last());
            assert(s.filter(pred) == out);
            assert forall|i: int, j: int|
                0 <= i < j < out.len() implies key(#[trigger] out[i]) < key(#[trigger] out[j]) by {
                if j == sub.len() as int {
                    assert(prefix.contains(out[i]));
                    let p = choose|p: int| 0 <= p < prefix.len() && prefix[p] == out[i];
                    assert(s[p] == out[i]);
                    assert(key(s[p]) < key(s[s.len() - 1]));
                } else {
                    assert(key(sub[i]) < key(sub[j]));
                }
            };
            assert forall|i: int| 0 <= i < out.len() implies s.contains(#[trigger] out[i]) by {
                if i < sub.len() {
                    assert(s.contains(sub[i]));
                }
            };
        }
    }
}

/// The provider/model catalog.
pub struct Catalog {
    providers: Vec<Provider>,
    models: Vec<ProviderModel>,
    clock: u64,
}

impl Catalog {
    /// The registered providers, in creation order.
    pub closed spec fn providers_seq(&self) -> Seq<Provider> {
        self.providers@
    }

    /// The registered models, in creation order.
    pub closed spec fn models_seq(&self) -> Seq<ProviderModel> {
        self.models@
    }

    /// The next stamp the catalog will assign.
    pub closed spec fn stamp(&self) -> u64 {
        self.clock
    }

    /// Well-formedness: ids strictly increase in creation order and lie below
    /// the stamp, and every model references an existing provider.
    pub open spec fn wf(&self) -> bool {
        &&& (forall|i: int, j: int|
            0 <= i < j < self.providers_seq().len() ==> #[trigger] self.providers_seq()[i].id
                < #[trigger] self.providers_seq()[j].id)
        &&& (forall|i: int|
            0 <= i < self.providers_seq().len() ==> #[trigger] self.providers_seq()[i].id
                < self.stamp())
        &&& (forall|i: int, j: int|
            0 <= i < j < self.models_seq().len() ==> #[trigger] self.models_seq()[i].id
                < #[trigger] self.models_seq()[j].id)
        &&& (forall|i: int|
            0 <= i < self.models_seq().len() ==> #[trigger] self.models_seq()[i].id
                < self.stamp())
        &&& (forall|i: int|
            0 <= i < self.models_seq().len() ==> has_provider(
                self.providers_seq(),
                #[trigger] self.models_seq()[i].provider_id,
            ))
    }

    /// The position of the provider carrying `id`.
    fn provider_index(&self, id: u64) -> (r: Option<usize>)
        ensures
            match r {
                Some(k) => k < self.providers_seq().len() && self.providers_seq()[k as int].id
                    == id && find_provider(self.providers_seq(), id) == Some(
                    self.providers_seq()[k as int],
                ),
                None => find_provider(self.providers_seq(), id) is None,
            },
    {
        let n = self.providers.len();
        let mut k: usize = 0;
        while k < n
            invariant
                n == self.providers_seq().len(),
                0 <= k <= n,
                forall|a: int| 0 <= a < k ==> #[trigger] self.providers_seq()[a].id != id,
            decreases n - k,
        {
            if self.providers[k].id == id {
                proof {
                    lemma_find_provider_at(self.providers_seq(), id, k as int);
                }
                return Some(k);
            }
            k += 1;
        }
        proof {
            lemma_find_provider(self.providers_seq(), id);
        }
        None
    }

    /// The position of the model carrying `id`.
    fn model_index(&self, id: u64) -> (r: Option<usize>)
        ensures
            match r {
                Some(k) => k < self.models_seq().len() && self.models_seq()[k as int].id == id
                    && find_model(self.models_seq(), id) == Some(self.models_seq()[k as int]),
                None => find_model(self.models_seq(), id) is None,
            },
    {
        let n = self.models.len();
        let mut k: usize = 0;
        while k < n
            invariant
                n == self.models_seq().len(),
                0 <= k <= n,
                forall|a: int| 0 <= a < k ==> #[trigger] self.models_seq()[a].id != id,
            decreases n - k,
        {
            if self.models[k].id == id {
                proof {
                    lemma_find_model_at(self.models_seq(), id, k as int);
                }
                return Some(k);
            }
            k += 1;
        }
        proof {
            lemma_find_model(self.models_seq(), id);
        }
        None
    }

    /// Whether the user already has a provider under this name.
    fn provider_named_exists(&self, user_id: u64, name: &String) -> (r: bool)
        ensures
            r == has_provider_named(self.providers_seq(), user_id, name@),
    {
        let n = self.providers.len();
        let mut k: usize = 0;
        while k < n
            invariant
                n == self.providers_seq().len(),
                0 <= k <= n,
                forall|a: int|
                    0 <= a < k ==> !((#[trigger] self.providers_seq()[a]).user_id == user_id
                        && self.providers_seq()[a].name@ == name@),
            decreases n - k,
        {
            let p = &self.providers[k];
            if p.user_id == user_id && p.name == *name {
                return true;
            }
            k += 1;
        }
        false
    }

    /// Whether the provider already offers a model under this remote id.
    fn model_named_exists(&self, provider_id: u64, model_id: &String) -> (r: bool)
        ensures
            r == has_model_named(self.models_seq(), provider_id, model_id@),
    {
        let n = self.models.len();
        let mut k: usize = 0;
        while k < n
            invariant
                n == self.models_seq().len(),
                0 <= k <= n,
                forall|a: int|
                    0 <= a < k ==> !((#[trigger] self.models_seq()[a]).provider_id == provider_id
                        && self.models_seq()[a].model_id@ == model_id@),
            decreases n - k,
        {
            let m = &self.models[k];
            if m.provider_id == provider_id && m.model_id == *model_id {
                return true;
            }
            k += 1;
        }
        false
    }

    /// An empty catalog.
    pub fn new() -> (c: Catalog)
        ensures
            c.wf(),
            c.providers_seq() == Seq::<Provider>::empty(),
            c.models_seq() == Seq::<ProviderModel>::empty(),
            c.stamp() == 0,
    {
        Catalog { providers: Vec::new(), models: Vec::new(), clock: 0 }
    }

    /// Registers a provider for a user. Fails with `Conflict` when the user
    /// already has a provider under this name, and changes nothing then.
    pub fn create_provider(
        &mut self,
        user_id: u64,
        name: String,
        url: String,
        key: Option<String>,
    ) -> (r: Result<Provider, AppError>)
        requires
            old(self).wf(),
        ensures
            final(self).wf(),
            r is Ok <==> (!has_provider_named(old(self).providers_seq(), user_id, name@) && old(
                self,
            ).stamp() < u64::MAX),
            r matches Ok(p) ==> ({
                &&& p == (Provider {
                    id: old(self).stamp(),
                    user_id: user_id,
                    name: name,
                    url: url,
                    key: key,
                })
                &&& final(self).providers_seq() == old(self).providers_seq().push(p)
                &&& final(self).models_seq() == old(self).models_seq()
                &&& final(self).stamp() == old(self).stamp() + 1
            }),
            r is Err ==> *final(self) == *old(self),
            r matches Err(e) ==> (e is Conflict <==> has_provider_named(
                old(self).providers_seq(),
                user_id,
                name@,
            )),
    {
        if self.provider_named_exists(user_id, &name) {
            return Err(AppError::Conflict(String::from_str("provider name already exists")));
        }
        if self.clock == u64::MAX {
            return Err(AppError::Internal(String::from_str("identifier source exhausted")));
        }
        let stamp = self.clock;
        let p = Provider { id: stamp, user_id, name, url, key };
        self.providers.push(p.clone());
        self.clock = stamp + 1;
        proof {
            let ops = old(self).providers_seq();
            let nps = self.providers_seq();
            assert(nps =~= ops.push(p));
            assert forall|i: int, j: int| 0 <= i < j < nps.len() implies #[trigger] nps[i].id
                < #[trigger] nps[j].id by {
                if j == ops.len() as int {
                    assert(nps[i] == ops[i]);
                    assert(ops[i].id < old(self).stamp());
                } else {
                    assert(nps[i] == ops[i] && nps[j] == ops[j]);
                }
            };
            assert forall|i: int|
                0 <= i < self.models_seq().len() implies has_provider(
                nps,
                #[trigger] self.models_seq()[i].provider_id,
            ) by {
                let mid = self.models_seq()[i].provider_id;
                assert(old(self).models_seq()[i].provider_id == mid);
                assert(has_provider(ops, mid));
                let w = choose|w: int| 0 <= w < ops.len() && #[trigger] ops[w].id == mid;
                assert(nps[w].id == mid);
            };
        }
        Ok(p)
    }

    /// Registers a model under one of the user's providers. A provider that
    /// is absent or not the caller's is `Forbidden`; a remote model id the
    /// provider already offers is `Conflict`; either way nothing changes.
    pub fn create_model(
        &mut self,
        user_id: u64,
        provider_id: u64,
        model_id: String,
        name: String,
    ) -> (r: Result<ProviderModel, AppError>)
        requires
            old(self).wf(),
        ensures
            final(self).wf(),
            r is Ok <==> ((match find_provider(old(self).providers_seq(), provider_id) {
                Some(p) => p.user_id == user_id,
                None => false,
            }) && !has_model_named(old(self).models_seq(), provider_id, model_id@) && old(
                self,
            ).stamp() < u64::MAX),
            !(match find_provider(old(self).providers_seq(), provider_id) {
                Some(p) => p.user_id == user_id,
                None => false,
            }) ==> (r matches Err(e) && e is Forbidden),
            ((match find_provider(old(self).providers_seq(), provider_id) {
                Some(p) => p.user_id == user_id,
                None => false,
            }) && has_model_named(old(self).models_seq(), provider_id, model_id@)) ==> (r matches Err(
                e,
            ) && e is Conflict),
            r matches Ok(m) ==> ({
                &&& m == (ProviderModel {
                    id: old(self).stamp(),
                    provider_id: provider_id,
                    model_id: model_id,
                    name: name,
                })
                &&& final(self).models_seq() == old(self).models_seq().push(m)
                &&& final(self).providers_seq() == old(self).providers_seq()
                &&& final(self).stamp() == old(self).stamp() + 1
            }),
            r is Err ==> *final(self) == *old(self),
    {
        let owned = match self.get_provider_for_user(user_id, provider_id) {
            Some(_) => true,
            None => false,
        };
        if !owned {
            return Err(AppError::Forbidden(String::from_str("provider not accessible")));
        }
        if self.model_named_exists(provider_id, &model_id) {
            return Err(
                AppError::Conflict(String::from_str("model id already exists in provider")),
            );
        }
        if self.clock == u64::MAX {
            return Err(AppError::Internal(String::from_str("identifier source exhausted")));
        }
        let stamp = self.clock;
        let m = ProviderModel { id: stamp, provider_id, model_id, name };
        self.models.push(m.clone());
        self.clock = stamp + 1;
        proof {
            let oms = old(self).models_seq();
            let nms = self.models_seq();
            assert(nms =~= oms.push(m));
            assert forall|i: int, j: int| 0 <= i < j < nms.len() implies #[trigger] nms[i].id
                < #[trigger] nms[j].id by {
                if j == oms.len() as int {
                    assert(nms[i] == oms[i]);
                    assert(oms[i].id < old(self).stamp());
                } else {
                    assert(nms[i] == oms[i] && nms[j] == oms[j]);
                }
            };
            lemma_find_provider(self.providers_seq(), provider_id);
            assert forall|i: int|
                0 <= i < nms.len() implies has_provider(
                self.providers_seq(),
                #[trigger] nms[i].provider_id,
            ) by {
                if i < oms.len() {
                    assert(nms[i] == oms[i]);
                    assert(has_provider(self.providers_seq(), oms[i].provider_id));
                }
            };
        }
        Ok(m)
    }

    /// Looks a model up by id.
    pub fn get_model(&self, id: u64) -> (r: Option<ProviderModel>)
        ensures
            r == find_model(self.models_seq(), id),
    {
        let n = self.models.len();
        let mut k: usize = 0;
        while k < n
            invariant
                n == self.models_seq().len(),
                0 <= k <= n,
                forall|a: int| 0 <= a < k ==> #[trigger] self.models_seq()[a].id != id,
            decreases n - k,
        {
            if self.models[k].id == id {
                proof {
                    lemma_find_model_at(self.models_seq(), id, k as int);
                }
                return Some(self.models[k].clone());
            }
            k += 1;
        }
        proof {
            lemma_find_model(self.models_seq(), id);
        }
        None
    }

    /// Looks a provider up by id, visible only to its owner: returns it
    /// exactly when it exists and belongs to `user_id`.
    pub fn get_provider_for_user(&self, user_id: u64, id: u64) -> (r: Option<Provider>)
        ensures
            r == (match find_provider(self.providers_seq(), id) {
                Some(p) => if p.user_id == user_id {
                    Some(p)
                } else {
                    None::<Provider>
                },
                None => None::<Provider>,
            }),
    {
        let n = self.providers.len();
        let mut k: usize = 0;
        while k < n
            invariant
                n == self.providers_seq().len(),
                0 <= k <= n,
                forall|a: int| 0 <= a < k ==> #[trigger] self.providers_seq()[a].id != id,
            decreases n - k,
        {
            if self.providers[k].id == id {
                proof {
                    lemma_find_provider_at(self.providers_seq(), id, k as int);
                }
                if self.providers[k].user_id == user_id {
                    return Some(self.providers[k].clone());
                } else {
                    return None;
                }
            }
            k += 1;
        }
        proof {
            lemma_find_provider(self.providers_seq(), id);
        }
        None
    }

    /// Lists a user's providers, in creation order.
    pub fn list_providers(&self, user_id: u64) -> (r: Vec<Provider>)
        ensures
            r@ == self.providers_seq().filter(provider_of_user(user_id)),
    {
        let mut out: Vec<Provider> = Vec::new();
        let n = self.providers.len();
        let mut k: usize = 0;
        while k < n
            invariant
                n == self.providers_seq().len(),
                0 <= k <= n,
                out@ == self.providers_seq().subrange(0, k as int).filter(
                    provider_of_user(user_id),
                ),
            decreases n - k,
        {
            proof {
                crate::store::lemma_filter_step(
                    self.providers_seq(),
                    provider_of_user(user_id),
                    k as int,
                );
            }
            let p = &self.providers[k];
            if p.user_id == user_id {
                out.push(p.clone());
            }
            k += 1;
        }
        proof {
            assert(self.providers_seq().subrange(0, n as int) =~= self.providers_seq());
        }
        out
    }

    /// Lists the models of one of the user's providers, in creation order; a
    /// provider that is absent or someone else's is `Forbidden`.
    pub fn list_models(&self, user_id: u64, provider_id: u64) -> (r: Result<
        Vec<ProviderModel>,
        AppError,
    >)
        ensures
            match find_provider(self.providers_seq(), provider_id) {
                None => r matches Err(e) && e is Forbidden,
                Some(p) => if p.user_id != user_id {
                    r matches Err(e) && e is Forbidden
                } else {
                    r matches Ok(v) && v@ == self.models_seq().filter(
                        model_of_provider(provider_id),
                    )
                },
            },
    {
        if self.get_provider_for_user(user_id, provider_id).is_none() {
            return Err(AppError::Forbidden(String::from_str("provider not accessible")));
        }
        Ok(self.models_of(provider_id))
    }

    /// The models of one provider, in creation order.
    fn models_of(&self, provider_id: u64) -> (r: Vec<ProviderModel>)
        ensures
            r@ == self.models_seq().filter(model_of_provider(provider_id)),
    {
        let mut out: Vec<ProviderModel> = Vec::new();
        let n = self.models.len();
        let mut k: usize = 0;
        while k < n
            invariant
                n == self.models_seq().len(),
                0 <= k <= n,
                out@ == self.models_seq().subrange(0, k as int).filter(
                    model_of_provider(provider_id),
                ),
            decreases n - k,
        {
            proof {
                crate::store::lemma_filter_step(
                    self.models_seq(),
                    model_of_provider(provider_id),
                    k as int,
                );
            }
            let m = &self.models[k];
            if m.provider_id == provider_id {
                out.push(m.clone());
            }
            k += 1;
        }
        proof {
            assert(self.models_seq().subrange(0, n as int) =~= self.models_seq());
        }
        out
    }

    /// Lists a user's providers, each paired with its models, both in
    /// creation order.
    pub fn list_with_models(&self, user_id: u64) -> (r: Vec<ProviderWithModels>)
        ensures
            ({
                let mine = self.providers_seq().filter(provider_of_user(user_id));
                &&& r@.len() == mine.len()
                &&& (forall|i: int|
                    0 <= i < r@.len() ==> ((#[trigger] r@[i]).provider == mine[i] && r@[i].models@
                        == self.models_seq().filter(model_of_provider(mine[i].id))))
            }),
    {
        let mine = self.list_providers(user_id);
        let mut out: Vec<ProviderWithModels> = Vec::new();
        let n = mine.len();
        let mut k: usize = 0;
        while k < n
            invariant
                n == mine@.len(),
                0 <= k <= n,
                mine@ == self.providers_seq().filter(provider_of_user(user_id)),
                out@.len() == k,
                forall|i: int|
                    0 <= i < k ==> ((#[trigger] out@[i]).provider == mine@[i] && out@[i].models@
                        == self.models_seq().filter(model_of_provider(mine@[i].id))),
            decreases n - k,
        {
            let p = &mine[k];
            let models = self.models_of(p.id);
            out.push(ProviderWithModels { provider: p.clone(), models });
            k += 1;
        }
        out
    }

    /// One of the user's providers paired with its models; absent or foreign
    /// providers are `NotFound`.
    pub fn get_with_models(&self, user_id: u64, id: u64) -> (r: Result<
        ProviderWithModels,
        AppError,
    >)
        ensures
            match find_provider(self.providers_seq(), id) {
                None => r matches Err(e) && e is NotFound,
                Some(p) => if p.user_id != user_id {
                    r matches Err(e) && e is NotFound
                } else {
                    r matches Ok(pm) && pm.provider == p && pm.models@ == self.models_seq().filter(
                        model_of_provider(id),
                    )
                },
            },
    {
        let provider = match self.get_provider_for_user(user_id, id) {
            None => { return Err(AppError::NotFound(String::from_str("provider not found"))) },
            Some(p) => p,
        };
        let models = self.models_of(id);
        Ok(ProviderWithModels { provider, models })
    }

    /// Looks a model up for a caller: an absent model is `NotFound`, one
    /// whose provider is not the caller's is `Forbidden`.
    pub fn get_model_for_user(&self, user_id: u64, id: u64) -> (r: Result<ProviderModel, AppError>)
        ensures
            match find_model(self.models_seq(), id) {
                None => r matches Err(e) && e is NotFound,
                Some(m) => match find_provider(self.providers_seq(), m.provider_id) {
                    None => r matches Err(e) && e is Forbidden,
                    Some(p) => if p.user_id != user_id {
                        r matches Err(e) && e is Forbidden
                    } else {
                        r == Ok::<ProviderModel, AppError>(m)
                    },
                },
            },
    {
        let model = match self.get_model(id) {
            None => { return Err(AppError::NotFound(String::from_str("model not found"))) },
            Some(m) => m,
        };
        if self.get_provider_for_user(user_id, model.provider_id).is_none() {
            return Err(AppError::Forbidden(String::from_str("provider not accessible")));
        }
        Ok(model)
    }

    /// Applies a partial update to one of the user's providers. An absent or
    /// foreign provider is `NotFound`; a rename onto a name the user already
    /// uses is `Conflict`; either way nothing changes.
    pub fn update_provider(
        &mut self,
        user_id: u64,
        id: u64,
        name: Option<String>,
        url: Option<String>,
        key: Option<Option<String>>,
    ) -> (r: Result<Provider, AppError>)
        requires
            old(self).wf(),
        ensures
            final(self).wf(),
            match find_provider(old(self).providers_seq(), id) {
                None => r matches Err(e) && e is NotFound && *final(self) == *old(self),
                Some(p) => if p.user_id != user_id {
                    r matches Err(e) && e is NotFound && *final(self) == *old(self)
                } else {
                    if (match name {
                        Some(n) => n@ != p.name@ && has_provider_named(
                            old(self).providers_seq(),
                            user_id,
                            n@,
                        ),
                        None => false,
                    }) {
                        r matches Err(e) && e is Conflict && *final(self) == *old(self)
                    } else {
                        r == Ok::<Provider, AppError>(provider_updated(p, name, url, key))
                            && final(self).providers_seq() == with_provider_updated(
                            old(self).providers_seq(),
                            id,
                            name,
                            url,
                            key,
                        ) && final(self).models_seq() == old(self).models_seq() && final(self).stamp() == old(self).stamp()
                    }
                },
            },
    {
        let k = match self.provider_index(id) {
            None => { return Err(AppError::NotFound(String::from_str("provider not found"))) },
            Some(k) => k,
        };
        if self.providers[k].user_id != user_id {
            return Err(AppError::NotFound(String::from_str("provider not found")));
        }
        match &name {
            Some(n) => {
                if *n != self.providers[k].name && self.provider_named_exists(user_id, n) {
                    return Err(
                        AppError::Conflict(String::from_str("provider name already exists")),
                    );
                }
            },
            None => {},
        }
        let cur = &self.providers[k];
        let updated = Provider {
            id: cur.id,
            user_id: cur.user_id,
            name: match name {
                Some(v) => v,
                None => cur.name.clone(),
            },
            url: match url {
                Some(v) => v,
                None => cur.url.clone(),
            },
            key: match key {
                Some(v) => v,
                None => clone_opt_string(&cur.key),
            },
        };
        self.providers.set(k, updated.clone());
        proof {
            let ops = old(self).providers_seq();
            let nps = self.providers_seq();
            assert(nps =~= ops.update(k as int, updated));
            assert forall|i: int| 0 <= i < nps.len() implies #[trigger] nps[i].id
                == ops[i].id by {}
            assert(nps =~= with_provider_updated(ops, id, name, url, key)) by {
                assert forall|i: int|
                    0 <= i < nps.len() implies nps[i] == with_provider_updated(
                    ops,
                    id,
                    name,
                    url,
                    key,
                )[i] by {
                    if i != k as int {
                        if i < k as int {
                            assert(ops[i].id < ops[k as int].id);
                        } else {
                            assert(ops[k as int].id < ops[i].id);
                        }
                    }
                };
            }
            assert forall|i: int, j: int| 0 <= i < j < nps.len() implies #[trigger] nps[i].id
                < #[trigger] nps[j].id by {
                assert(nps[i].id == ops[i].id && nps[j].id == ops[j].id);
                assert(ops[i].id < ops[j].id);
            };
            assert forall|i: int| 0 <= i < nps.len() implies #[trigger] nps[i].id
                < self.stamp() by {
                assert(ops[i].id < old(self).stamp());
            };
            assert forall|i: int|
                0 <= i < self.models_seq().len() implies has_provider(
                nps,
                #[trigger] self.models_seq()[i].provider_id,
            ) by {
                let mid = self.models_seq()[i].provider_id;
                assert(old(self).models_seq()[i].provider_id == mid);
                assert(has_provider(ops, mid));
                let w = choose|w: int| 0 <= w < ops.len() && #[trigger] ops[w].id == mid;
                assert(nps[w].id == mid);
            };
        }
        Ok(updated)
    }

    /// Applies a partial update to a model of one of the user's providers.
    /// An absent model is `NotFound`; a foreign provider is `Forbidden`; a
    /// change onto a remote id the provider already offers is `Conflict`;
    /// either way nothing changes.
    pub fn update_model(
        &mut self,
        user_id: u64,
        id: u64,
        model_id: Option<String>,
        name: Option<String>,
    ) -> (r: Result<ProviderModel, AppError>)
        requires
            old(self).wf(),
        ensures
            final(self).wf(),
            match find_model(old(self).models_seq(), id) {
                None => r matches Err(e) && e is NotFound && *final(self) == *old(self),
                Some(m) => match find_provider(old(self).providers_seq(), m.provider_id) {
                    None => r matches Err(e) && e is Forbidden && *final(self) == *old(self),
                    Some(p) => if p.user_id != user_id {
                        r matches Err(e) && e is Forbidden && *final(self) == *old(self)
                    } else {
                        if (match model_id {
                            Some(v) => v@ != m.model_id@ && has_model_named(
                                old(self).models_seq(),
                                m.provider_id,
                                v@,
                            ),
                            None => false,
                        }) {
                            r matches Err(e) && e is Conflict && *final(self) == *old(self)
                        } else {
                            r == Ok::<ProviderModel, AppError>(model_updated(m, model_id, name))
                                && final(self).models_seq() == with_model_updated(
                                old(self).models_seq(),
                                id,
                                model_id,
                                name,
                            ) && final(self).providers_seq() == old(self).providers_seq() && final(self).stamp() == old(self).stamp()
                        }
                    },
                },
            },
    {
        let k = match self.model_index(id) {
            None => { return Err(AppError::NotFound(String::from_str("model not found"))) },
            Some(k) => k,
        };
        let provider_id = self.models[k].provider_id;
        if self.get_provider_for_user(user_id, provider_id).is_none() {
            return Err(AppError::Forbidden(String::from_str("provider not accessible")));
        }
        match &model_id {
            Some(v) => {
                if *v != self.models[k].model_id && self.model_named_exists(provider_id, v) {
                    return Err(
                        AppError::Conflict(
                            String::from_str("model id already exists in provider"),
                        ),
                    );
                }
            },
            None => {},
        }
        let cur = &self.models[k];
        let updated = ProviderModel {
            id: cur.id,
            provider_id: cur.provider_id,
            model_id: match model_id {
                Some(v) => v,
                None => cur.model_id.clone(),
            },
            name: match name {
                Some(v) => v,
                None => cur.name.clone(),
            },
        };
        self.models.set(k, updated.clone());
        proof {
            let oms = old(self).models_seq();
            let nms = self.models_seq();
            assert(nms =~= oms.update(k as int, updated));
            assert forall|i: int| 0 <= i < nms.len() implies (#[trigger] nms[i].id == oms[i].id
                && nms[i].provider_id == oms[i].provider_id) by {}
            assert(nms =~= with_model_updated(oms, id, model_id, name)) by {
                assert forall|i: int|
                    0 <= i < nms.len() implies nms[i] == with_model_updated(
                    oms,
                    id,
                    model_id,
                    name,
                )[i] by {
                    if i != k as int {
                        if i < k as int {
                            assert(oms[i].id < oms[k as int].id);
                        } else {
                            assert(oms[k as int].id < oms[i].id);
                        }
                    }
                };
            }
            assert forall|i: int, j: int| 0 <= i < j < nms.len() implies #[trigger] nms[i].id
                < #[trigger] nms[j].id by {
                assert(nms[i].id == oms[i].id && nms[j].id == oms[j].id);
                assert(oms[i].id < oms[j].id);
            };
            assert forall|i: int| 0 <= i < nms.len() implies #[trigger] nms[i].id
                < self.stamp() by {
                assert(oms[i].id < old(self).stamp());
            };
            assert forall|i: int|
                0 <= i < nms.len() implies has_provider(
                self.providers_seq(),
                #[trigger] nms[i].provider_id,
            ) by {
                assert(nms[i].provider_id == oms[i].provider_id);
                assert(has_provider(self.providers_seq(), oms[i].provider_id));
            };
        }
        Ok(updated)
    }

    /// Deletes one of the user's models. An absent model is `NotFound`, a
    /// foreign provider `Forbidden`; either way nothing changes.
    pub fn delete_model(&mut self, user_id: u64, id: u64) -> (r: Result<(), AppError>)
        requires
            old(self).wf(),
        ensures
            final(self).wf(),
            match find_model(old(self).models_seq(), id) {
                None => r matches Err(e) && e is NotFound && *final(self) == *old(self),
                Some(m) => match find_provider(old(self).providers_seq(), m.provider_id) {
                    None => r matches Err(e) && e is Forbidden && *final(self) == *old(self),
                    Some(p) => if p.user_id != user_id {
                        r matches Err(e) && e is Forbidden && *final(self) == *old(self)
                    } else {
                        r is Ok && final(self).models_seq() == old(self).models_seq().filter(
                            other_models(id),
                        ) && final(self).providers_seq() == old(self).providers_seq() && final(self).stamp() == old(self).stamp()
                    },
                },
            },
    {
        let model = match self.get_model_for_user(user_id, id) {
            Err(e) => { return Err(e) },
            Ok(m) => m,
        };
        let ghost oms = self.models_seq();
        let mut kept: Vec<ProviderModel> = Vec::new();
        let n = self.models.len();
        let mut k: usize = 0;
        while k < n
            invariant
                *self == *old(self),
                old(self).wf(),
                n == self.models_seq().len(),
                0 <= k <= n,
                kept@ == self.models_seq().subrange(0, k as int).filter(other_models(id)),
            decreases n - k,
        {
            proof {
                crate::store::lemma_filter_step(self.models_seq(), other_models(id), k as int);
            }
            let m = &self.models[k];
            if m.id != id {
                kept.push(m.clone());
            }
            k += 1;
        }
        proof {
            assert(self.models_seq().subrange(0, n as int) =~= self.models_seq());
        }
        self.models = kept;
        proof {
            lemma_filter_keeps_key_order(
                oms,
                other_models(id),
                |m: ProviderModel| m.id,
            );
            let nms = self.models_seq();
            assert forall|i: int| 0 <= i < nms.len() implies (#[trigger] nms[i].id < self.stamp()
                && has_provider(self.providers_seq(), nms[i].provider_id)) by {
                assert(oms.contains(nms[i]));
                let w = choose|w: int| 0 <= w < oms.len() && oms[w] == nms[i];
                assert(oms[w].id < old(self).stamp());
                assert(has_provider(self.providers_seq(), oms[w].provider_id));
            };
        }
        Ok(())
    }

    /// Deletes one of the user's providers and, cascading, all of its
    /// models. A provider that is absent or someone else's is `NotFound` —
    /// this surface does not reveal foreign providers — and nothing changes.
    pub fn delete_provider(&mut self, user_id: u64, id: u64) -> (r: Result<(), AppError>)
        requires
            old(self).wf(),
        ensures
            final(self).wf(),
            match find_provider(old(self).providers_seq(), id) {
                None => r matches Err(e) && e is NotFound && *final(self) == *old(self),
                Some(p) => if p.user_id != user_id {
                    r matches Err(e) && e is NotFound && *final(self) == *old(self)
                } else {
                    r is Ok && final(self).providers_seq() == old(self).providers_seq().filter(
                        other_providers(id),
                    ) && final(self).models_seq() == old(self).models_seq().filter(
                        models_outside(id),
                    ) && final(self).stamp() == old(self).stamp()
                },
            },
    {
        if self.get_provider_for_user(user_id, id).is_none() {
            return Err(AppError::NotFound(String::from_str("provider not found")));
        }
        let ghost ops = self.providers_seq();
        let ghost oms = self.models_seq();
        let mut kept_providers: Vec<Provider> = Vec::new();
        let n = self.providers.len();
        let mut k: usize = 0;
        while k < n
            invariant
                *self == *old(self),
                old(self).wf(),
                n == self.providers_seq().len(),
                0 <= k <= n,
                kept_providers@ == self.providers_seq().subrange(0, k as int).filter(
                    other_providers(id),
                ),
            decreases n - k,
        {
            proof {
                crate::store::lemma_filter_step(
                    self.providers_seq(),
                    other_providers(id),
                    k as int,
                );
            }
            let p = &self.providers[k];
            if p.id != id {
                kept_providers.push(p.clone());
            }
            k += 1;
        }
        let mut kept_models: Vec<ProviderModel> = Vec::new();
        let m = self.models.len();
        let mut j: usize = 0;
        while j < m
            invariant
                *self == *old(self),
                old(self).wf(),
                m == self.models_seq().len(),
                0 <= j <= m,
                kept_providers@ == self.providers_seq().subrange(
                    0,
                    self.providers_seq().len() as int,
                ).filter(other_providers(id)),
                kept_models@ == self.models_seq().subrange(0, j as int).filter(
                    models_outside(id),
                ),
            decreases m - j,
        {
            proof {
                crate::store::lemma_filter_step(self.models_seq(), models_outside(id), j as int);
            }
            let w = &self.models[j];
            if w.provider_id != id {
                kept_models.push(w.clone());
            }
            j += 1;
        }
        proof {
            assert(self.providers_seq().subrange(0, n as int) =~= self.providers_seq());
            assert(self.models_seq().subrange(0, m as int) =~= self.models_seq());
        }
        self.providers = kept_providers;
        self.models = kept_models;
        proof {
            let keyp = |p: Provider| p.id;
            let keym = |w: ProviderModel| w.id;
            lemma_filter_keeps_key_order(ops, other_providers(id), keyp);
            lemma_filter_keeps_key_order(oms, models_outside(id), keym);
            broadcast use vstd::seq_lib::group_filter_ensures;

            let nps = self.providers_seq();
            let nms = self.models_seq();
            assert forall|i: int, j: int| 0 <= i < j < nps.len() implies #[trigger] nps[i].id
                < #[trigger] nps[j].id by {
                assert(keyp(nps[i]) < keyp(nps[j]));
                assert(keyp(nps[i]) == nps[i].id && keyp(nps[j]) == nps[j].id);
            };
            assert forall|i: int, j: int| 0 <= i < j < nms.len() implies #[trigger] nms[i].id
                < #[trigger] nms[j].id by {
                assert(keym(nms[i]) < keym(nms[j]));
                assert(keym(nms[i]) == nms[i].id && keym(nms[j]) == nms[j].id);
            };
            assert forall|i: int| 0 <= i < nps.len() implies #[trigger] nps[i].id
                < self.stamp() by {
                assert(ops.contains(nps[i]));
                let w = choose|w: int| 0 <= w < ops.len() && ops[w] == nps[i];
                assert(ops[w].id < old(self).stamp());
            };
            assert forall|i: int| 0 <= i < nms.len() implies #[trigger] nms[i].id
                < self.stamp() by {
                assert(oms.contains(nms[i]));
                let p = choose|p: int| 0 <= p < oms.len() && oms[p] == nms[i];
                assert(oms[p].id < old(self).stamp());
            };
            assert forall|i: int|
                0 <= i < nms.len() implies has_provider(
                nps,
                #[trigger] nms[i].provider_id,
            ) by {
                assert(oms.contains(nms[i]));
                let p = choose|p: int| 0 <= p < oms.len() && oms[p] == nms[i];
                assert(has_provider(ops, oms[p].provider_id));
                let w = choose|w: int| 0 <= w < ops.len() && #[trigger] ops[w].id
                    == oms[p].provider_id;
                assert(models_outside(id)(nms[i]));
                assert(nms[i].provider_id != id);
                assert(other_providers(id)(ops[w]));
                assert(ops.filter(other_providers(id)).contains(ops[w]));
                let q = choose|q: int| 0 <= q < nps.len() && nps[q] == ops[w];
                assert(nps[q].id == nms[i].provider_id);
            };
        }
        Ok(())
    }
}

} // verus!
