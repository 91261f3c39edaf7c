//! The generic deinflection engine: a language descriptor lists condition
//! tags (with hierarchical coverage) and groups of rewriting rules; the
//! engine enumerates every candidate root form reachable from an input
//! text by chaining applicable rules, guarded against revisiting a state.

use vstd::prelude::*;

use crate::text::{
    append_chars, chars_of, ends_with_chars, find_space, find_space_chars, prefix_of,
    starts_with_chars, string_of, sub_chars, suffix_of,
};

verus! {

// ---------------------------------------------------------------------------
// Data model
// ---------------------------------------------------------------------------

/// One condition tag's definition: the tags it covers directly, if any.
pub struct ConditionDefinition {
    pub sub_conditions: Option<Vec<String>>,
}

/// The rewriting kinds a rule can have.
pub enum RuleKind {
    /// Applies when the text ends with `inflected`; the suffix is replaced
    /// by `deinflected`.
    Suffix { inflected: String, deinflected: String },
    /// Applies when the text starts with `inflected`; the prefix is
    /// replaced by `deinflected`.
    Prefix { inflected: String, deinflected: String },
    /// Applies when the text is a multi-word phrase whose first word ends
    /// with `inflected`; only that word's suffix is replaced.
    EnglishPhrasalSuffix { inflected: String, deinflected: String },
    /// Applies when the text is a phrase of three or more words; the second
    /// word (an interposed object) is removed.
    EnglishPhrasalInterposedObject,
}

/// One rule: a rewriting kind gated by the tags required of the current
/// candidate, and the tags assigned to the rewritten candidate.
pub struct RuleDefinition {
    pub kind: RuleKind,
    pub conditions_in: Vec<String>,
    pub conditions_out: Vec<String>,
}

/// A named bundle of rules for one grammatical phenomenon.
pub struct TransformDefinition {
    pub id: String,
    pub rules: Vec<RuleDefinition>,
}

/// Conditions and transform groups for one language.
pub struct Descriptor {
    pub conditions: Vec<(String, ConditionDefinition)>,
    pub transforms: Vec<TransformDefinition>,
}

/// One engine result: a candidate root text, the tags describing its
/// grammatical class, and the ids of the groups whose rules produced it.
pub struct DeinflectionCandidate {
    pub text: String,
    pub conditions: Vec<String>,
    pub trace: Vec<String>,
}

/// Why a descriptor was rejected.
#[derive(Clone, Copy, Debug, PartialEq, Eq, Structural)]
pub enum TransformError {
    /// Two conditions share a name.
    DuplicateCondition,
    /// A rule or a sub-condition references a tag that is not defined.
    UndefinedTag,
    /// An affix rule's inflected part is empty.
    EmptyInflected,
    /// A static table could not be read as a descriptor.
    MalformedTable,
}

// ---------------------------------------------------------------------------
// Mathematical model
// ---------------------------------------------------------------------------

/// Model of one condition: its name and the tags it covers directly.
#[verifier::ext_equal]
pub ghost struct CondModel {
    pub name: Seq<char>,
    pub subs: Seq<Seq<char>>,
}

/// Model of a rewriting kind.
#[verifier::ext_equal]
pub ghost enum KindModel {
    Suffix { inflected: Seq<char>, deinflected: Seq<char> },
    Prefix { inflected: Seq<char>, deinflected: Seq<char> },
    PhrasalSuffix { inflected: Seq<char>, deinflected: Seq<char> },
    Interposed,
}

/// Model of one rule.
#[verifier::ext_equal]
pub ghost struct RuleModel {
    pub kind: KindModel,
    pub conds_in: Seq<Seq<char>>,
    pub conds_out: Seq<Seq<char>>,
}

/// Model of one transform group.
#[verifier::ext_equal]
pub ghost struct GroupModel {
    pub id: Seq<char>,
    pub rules: Seq<RuleModel>,
}

/// Model of a whole descriptor.
#[verifier::ext_equal]
pub ghost struct DescModel {
    pub conditions: Seq<CondModel>,
    pub groups: Seq<GroupModel>,
}

/// Model of one candidate.
#[verifier::ext_equal]
pub ghost struct CandModel {
    pub text: Seq<char>,
    pub conds: Seq<Seq<char>>,
    pub trace: Seq<Seq<char>>,
}

impl ConditionDefinition {
    /// The directly covered tags; `None` means none.
    pub open spec fn subs_model(&self) -> Seq<Seq<char>> {
        match self.sub_conditions {
            Some(v) => v.deep_view(),
            None => Seq::empty(),
        }
    }
}

impl RuleKind {
    pub open spec fn model(&self) -> KindModel {
        match self {
            RuleKind::Suffix { inflected, deinflected } => KindModel::Suffix {
                inflected: inflected@,
                deinflected: deinflected@,
            },
            RuleKind::Prefix { inflected, deinflected } => KindModel::Prefix {
                inflected: inflected@,
                deinflected: deinflected@,
            },
            RuleKind::EnglishPhrasalSuffix { inflected, deinflected } => KindModel::PhrasalSuffix {
                inflected: inflected@,
                deinflected: deinflected@,
            },
            RuleKind::EnglishPhrasalInterposedObject => KindModel::Interposed,
        }
    }
}

impl RuleDefinition {
    pub open spec fn model(&self) -> RuleModel {
        RuleModel {
            kind: self.kind.model(),
            conds_in: self.conditions_in.deep_view(),
            conds_out: self.conditions_out.deep_view(),
        }
    }
}

impl TransformDefinition {
    pub open spec fn model(&self) -> GroupModel {
        GroupModel { id: self.id@, rules: self.rules@.map_values(|r: RuleDefinition| r.model()) }
    }
}

/// The models of a sequence of named conditions.
pub open spec fn conds_model_seq(s: Seq<(String, ConditionDefinition)>) -> Seq<CondModel> {
    s.map_values(|p: (String, ConditionDefinition)| CondModel { name: p.0@, subs: p.1.subs_model() })
}

impl Descriptor {
    pub open spec fn conds_model(&self) -> Seq<CondModel> {
        conds_model_seq(self.conditions@)
    }

    pub open spec fn model(&self) -> DescModel {
        DescModel {
            conditions: self.conds_model(),
            groups: self.transforms@.map_values(|t: TransformDefinition| t.model()),
        }
    }
}

impl DeinflectionCandidate {
    pub open spec fn model(&self) -> CandModel {
        CandModel {
            text: self.text@,
            conds: self.conditions.deep_view(),
            trace: self.trace.deep_view(),
        }
    }
}

/// The models of a sequence of candidates.
pub open spec fn cands_model(s: Seq<DeinflectionCandidate>) -> Seq<CandModel> {
    s.map_values(|c: DeinflectionCandidate| c.model())
}

// ---------------------------------------------------------------------------
// Condition coverage and satisfaction
// ---------------------------------------------------------------------------

/// The directly covered tags of the first condition named `tag`; empty when
/// no condition has that name.
pub open spec fn subs_of(cs: Seq<CondModel>, tag: Seq<char>) -> Seq<Seq<char>>
    decreases cs.len(),
{
    if cs.len() == 0 {
        Seq::empty()
    } else if cs[0].name == tag {
        cs[0].subs
    } else {
        subs_of(cs.skip(1), tag)
    }
}

/// Tag `from` covers tag `to` by a chain of at most `fuel` sub-condition
/// edges. Coverage is a DAG, so a path never needs more edges than there
/// are conditions; `cs.len()` fuel makes this plain reachability.
pub open spec fn covers(cs: Seq<CondModel>, from: Seq<char>, to: Seq<char>, fuel: nat) -> bool
    decreases fuel,
{
    from == to || (fuel > 0 && exists|i: int|
        0 <= i < subs_of(cs, from).len() && covers(
            cs,
            subs_of(cs, from)[i],
            to,
            (fuel - 1) as nat,
        ))
}

/// Tag `from` covers tag `to` (transitive, reflexive coverage).
pub open spec fn tag_covers(cs: Seq<CondModel>, from: Seq<char>, to: Seq<char>) -> bool {
    covers(cs, from, to, cs.len() as nat)
}

/// A candidate's tag set satisfies a requirement set: either side empty is
/// unconstrained; otherwise some candidate tag must cover some required tag.
pub open spec fn cond_sat(cs: Seq<CondModel>, tags: Seq<Seq<char>>, req: Seq<Seq<char>>) -> bool {
    tags.len() == 0 || req.len() == 0 || exists|a: int, b: int|
        0 <= a < tags.len() && 0 <= b < req.len() && tag_covers(cs, tags[a], req[b])
}

// ---------------------------------------------------------------------------
// Rule matching
// ---------------------------------------------------------------------------

/// Whether a rewriting kind matches a text. Affix kinds also require the
/// rewritten text to be non-empty.
pub open spec fn kind_matches(k: KindModel, t: Seq<char>) -> bool {
    match k {
        KindModel::Suffix { inflected, deinflected } => inflected.len() > 0 && suffix_of(
            t,
            inflected,
        ) && t.len() - inflected.len() + deinflected.len() > 0,
        KindModel::Prefix { inflected, deinflected } => inflected.len() > 0 && prefix_of(
            t,
            inflected,
        ) && t.len() - inflected.len() + deinflected.len() > 0,
        KindModel::PhrasalSuffix { inflected, deinflected } => {
            let sp = find_space(t, 0);
            inflected.len() > 0 && sp < t.len() && suffix_of(t.take(sp), inflected) && sp
                - inflected.len() + deinflected.len() > 0
        },
        KindModel::Interposed => {
            let sp1 = find_space(t, 0);
            let sp2 = find_space(t, sp1 + 1);
            0 < sp1 && sp1 < t.len() && sp1 + 1 < sp2 && sp2 < t.len() && sp2 + 1 < t.len()
        },
    }
}

/// The rewritten text of a matching kind.
pub open spec fn apply_kind(k: KindModel, t: Seq<char>) -> Seq<char> {
    match k {
        KindModel::Suffix { inflected, deinflected } => t.take(t.len() - inflected.len())
            + deinflected,
        KindModel::Prefix { inflected, deinflected } => deinflected + t.skip(inflected.len() as int),
        KindModel::PhrasalSuffix { inflected, deinflected } => {
            let sp = find_space(t, 0);
            t.take(sp - inflected.len()) + deinflected + t.skip(sp)
        },
        KindModel::Interposed => {
            let sp1 = find_space(t, 0);
            let sp2 = find_space(t, sp1 + 1);
            t.take(sp1 + 1) + t.skip(sp2 + 1)
        },
    }
}

/// Whether a rule applies to a candidate with the given text and tag set:
/// its required tags are satisfied and its rewriting kind matches the text.
pub open spec fn rule_applies(
    cs: Seq<CondModel>,
    r: RuleModel,
    text: Seq<char>,
    conds: Seq<Seq<char>>,
) -> bool {
    cond_sat(cs, conds, r.conds_in) && kind_matches(r.kind, text)
}

/// The candidate produced by applying a rule: rewritten text, the rule's
/// output tags (replacing the old set), and the group id appended to the
/// trace.
pub open spec fn step_cand(gid: Seq<char>, r: RuleModel, c: CandModel) -> CandModel {
    CandModel { text: apply_kind(r.kind, c.text), conds: r.conds_out, trace: c.trace.push(gid) }
}

/// The identity candidate for an input text: unconstrained, no steps.
pub open spec fn seed_cand(t: Seq<char>) -> CandModel {
    CandModel { text: t, conds: Seq::empty(), trace: Seq::empty() }
}

/// The de-duplication key of a candidate.
pub open spec fn cand_key(c: CandModel) -> (Seq<char>, Seq<Seq<char>>) {
    (c.text, c.conds)
}

// ---------------------------------------------------------------------------
// Descriptor well-formedness
// ---------------------------------------------------------------------------

/// A tag is defined when some condition bears its name.
pub open spec fn tag_defined(cs: Seq<CondModel>, tag: Seq<char>) -> bool {
    exists|i: int| 0 <= i < cs.len() && cs[i].name == tag
}

/// Every tag in the list is defined.
pub open spec fn tags_defined(cs: Seq<CondModel>, tags: Seq<Seq<char>>) -> bool {
    forall|i: int| 0 <= i < tags.len() ==> tag_defined(cs, #[trigger] tags[i])
}

/// Condition names are pairwise distinct.
pub open spec fn unique_names(cs: Seq<CondModel>) -> bool {
    forall|i: int, j: int| 0 <= i < j < cs.len() ==> cs[i].name != cs[j].name
}

/// An affix kind's inflected part is non-empty.
pub open spec fn kind_wf(k: KindModel) -> bool {
    match k {
        KindModel::Suffix { inflected, .. } => inflected.len() > 0,
        KindModel::Prefix { inflected, .. } => inflected.len() > 0,
        KindModel::PhrasalSuffix { inflected, .. } => inflected.len() > 0,
        KindModel::Interposed => true,
    }
}

/// Every sub-condition tag of every condition is defined.
pub open spec fn conds_subs_defined(cs: Seq<CondModel>) -> bool {
    forall|i: int| 0 <= i < cs.len() ==> tags_defined(cs, (#[trigger] cs[i]).subs)
}

/// Both tag lists of a rule are defined.
pub open spec fn rule_tags_defined(cs: Seq<CondModel>, r: RuleModel) -> bool {
    tags_defined(cs, r.conds_in) && tags_defined(cs, r.conds_out)
}

/// Every tag referenced by any rule is defined.
pub open spec fn groups_tags_defined(d: DescModel) -> bool {
    forall|g: int, r: int|
        0 <= g < d.groups.len() && 0 <= r < d.groups[g].rules.len() ==> rule_tags_defined(
            d.conditions,
            #[trigger] d.groups[g].rules[r],
        )
}

/// Every tag referenced by any rule or sub-condition is defined.
pub open spec fn desc_tags_defined(d: DescModel) -> bool {
    conds_subs_defined(d.conditions) && groups_tags_defined(d)
}

/// Every affix rule has a non-empty inflected part.
pub open spec fn desc_affixes_nonempty(d: DescModel) -> bool {
    forall|g: int, r: int|
        0 <= g < d.groups.len() && 0 <= r < d.groups[g].rules.len() ==> kind_wf(
            (#[trigger] d.groups[g].rules[r]).kind,
        )
}

/// A well-formed descriptor: unique condition names, every referenced tag
/// defined, every affix rule's inflected part non-empty.
pub open spec fn desc_wf(d: DescModel) -> bool {
    unique_names(d.conditions) && desc_tags_defined(d) && desc_affixes_nonempty(d)
}

// ---------------------------------------------------------------------------
// Executable condition machinery
// ---------------------------------------------------------------------------

/// Whether two strings hold the same characters.
pub fn str_equal(a: &String, b: &String) -> (r: bool)
    ensures
        r == (a@ == b@),
{
    a.eq(b)
}

/// A copy of a tag list.
pub fn clone_tags(v: &Vec<String>) -> (r: Vec<String>)
    ensures
        r@ == v@,
{
    let mut r: Vec<String> = Vec::new();
    let mut i: usize = 0;
    while i < v.len()
        invariant
            i <= v@.len(),
            r@ == v@.take(i as int),
        decreases v@.len() - i,
    {
        r.push(v[i].clone());
        proof {
            assert(v@.take(i + 1 as int) == v@.take(i as int).push(v@[i as int]));
        }
        i = i + 1;
    }
    proof {
        assert(v@.take(v@.len() as int) == v@);
    }
    r
}

proof fn lemma_subs_of_skip(cm: Seq<CondModel>, tag: Seq<char>, k: int)
    requires
        0 <= k < cm.len(),
        cm[k].name != tag,
    ensures
        subs_of(cm.skip(k), tag) == subs_of(cm.skip(k + 1), tag),
{
    assert(cm.skip(k)[0] == cm[k]);
    assert(cm.skip(k).skip(1) =~= cm.skip(k + 1));
}

/// The directly covered tags of the condition named `tag`, if any.
fn lookup_subs(conds: &Vec<(String, ConditionDefinition)>, tag: &String) -> (r: Vec<String>)
    ensures
        r.deep_view() == subs_of(conds_model_seq(conds@), tag@),
{
    let ghost cm = conds_model_seq(conds@);
    proof {
        assert(cm.skip(0) =~= cm);
    }
    let mut k: usize = 0;
    while k < conds.len()
        invariant
            k <= conds@.len(),
            cm == conds_model_seq(conds@),
            cm.len() == conds@.len(),
            subs_of(cm, tag@) == subs_of(cm.skip(k as int), tag@),
        decreases conds@.len() - k,
    {
        proof {
            assert(cm[k as int] == CondModel {
                name: conds@[k as int].0@,
                subs: conds@[k as int].1.subs_model(),
            });
        }
        if str_equal(&conds[k].0, tag) {
            proof {
                assert(cm.skip(k as int)[0] == cm[k as int]);
                assert(subs_of(cm.skip(k as int), tag@) == cm[k as int].subs);
            }
            let r = match &conds[k].1.sub_conditions {
                Some(subs) => clone_tags(subs),
                None => Vec::new(),
            };
            proof {
                assert(r.deep_view() =~= cm[k as int].subs);
            }
            return r;
        }
        proof {
            lemma_subs_of_skip(cm, tag@, k as int);
        }
        k = k + 1;
    }
    proof {
        assert(cm.skip(cm.len() as int).len() == 0);
    }
    let r: Vec<String> = Vec::new();
    proof {
        assert(r.deep_view() =~= Seq::<Seq<char>>::empty());
    }
    r
}

/// Whether `from` covers `to` within `fuel` sub-condition steps.
fn covers_exec(
    conds: &Vec<(String, ConditionDefinition)>,
    from: &String,
    to: &String,
    fuel: usize,
) -> (r: bool)
    ensures
        r == covers(conds_model_seq(conds@), from@, to@, fuel as nat),
    decreases fuel,
{
    let ghost cm = conds_model_seq(conds@);
    if str_equal(from, to) {
        return true;
    }
    if fuel == 0 {
        return false;
    }
    let subs = lookup_subs(conds, from);
    let ghost sm = subs_of(cm, from@);
    let mut k: usize = 0;
    while k < subs.len()
        invariant
            k <= subs@.len(),
            cm == conds_model_seq(conds@),
            sm == subs_of(cm, from@),
            subs.deep_view() == sm,
            subs@.len() == sm.len(),
            fuel >= 1,
            from@ != to@,
            forall|j: int| 0 <= j < k ==> !covers(cm, sm[j], to@, (fuel - 1) as nat),
        decreases subs@.len() - k,
    {
        proof {
            assert(subs.deep_view()[k as int] == subs@[k as int]@);
        }
        if covers_exec(conds, &subs[k], to, fuel - 1) {
            proof {
                assert(covers(cm, sm[k as int], to@, (fuel - 1) as nat));
            }
            return true;
        }
        k = k + 1;
    }
    false
}

/// Whether a candidate's tag set satisfies a rule's requirement set.
fn cond_sat_exec(
    conds: &Vec<(String, ConditionDefinition)>,
    tags: &Vec<String>,
    req: &Vec<String>,
) -> (r: bool)
    ensures
        r == cond_sat(conds_model_seq(conds@), tags.deep_view(), req.deep_view()),
{
    let ghost cm = conds_model_seq(conds@);
    let ghost tm = tags.deep_view();
    let ghost rm = req.deep_view();
    if tags.len() == 0 || req.len() == 0 {
        return true;
    }
    let mut a: usize = 0;
    while a < tags.len()
        invariant
            a <= tags@.len(),
            cm == conds_model_seq(conds@),
            tm == tags.deep_view(),
            rm == req.deep_view(),
            tm.len() == tags@.len(),
            rm.len() == req@.len(),
            tm.len() > 0,
            rm.len() > 0,
            forall|x: int, y: int|
                0 <= x < a && 0 <= y < rm.len() ==> !tag_covers(cm, tm[x], rm[y]),
        decreases tags@.len() - a,
    {
        let mut b: usize = 0;
        while b < req.len()
            invariant
                a < tags@.len(),
                b <= req@.len(),
                cm == conds_model_seq(conds@),
                tm == tags.deep_view(),
                rm == req.deep_view(),
                tm.len() == tags@.len(),
                rm.len() == req@.len(),
                forall|y: int| 0 <= y < b ==> !tag_covers(cm, tm[a as int], rm[y]),
            decreases req@.len() - b,
        {
            proof {
                assert(tags.deep_view()[a as int] == tags@[a as int]@);
                assert(req.deep_view()[b as int] == req@[b as int]@);
            }
            if covers_exec(conds, &tags[a], &req[b], conds.len()) {
                proof {
                    assert(tag_covers(cm, tm[a as int], rm[b as int]));
                }
                return true;
            }
            b = b + 1;
        }
        a = a + 1;
    }
    false
}

// ---------------------------------------------------------------------------
// Executable rule matching
// ---------------------------------------------------------------------------

/// Applies a rewriting kind to a text, when it matches.
fn apply_kind_exec(kind: &RuleKind, t: &Vec<char>) -> (r: Option<Vec<char>>)
    ensures
        (r is Some) == kind_matches(kind.model(), t@),
        r matches Some(v) ==> v@ == apply_kind(kind.model(), t@),
{
    match kind {
        RuleKind::Suffix { inflected, deinflected } => {
            let inf = chars_of(inflected.as_str());
            let de = chars_of(deinflected.as_str());
            if inf.len() == 0 {
                return None;
            }
            if !ends_with_chars(t, &inf) {
                return None;
            }
            let keep = t.len() - inf.len();
            if keep == 0 && de.len() == 0 {
                return None;
            }
            let mut out = sub_chars(t, 0, keep);
            append_chars(&mut out, &de);
            proof {
                assert(out@ =~= t@.take(t@.len() - inflected@.len()) + deinflected@);
            }
            Some(out)
        },
        RuleKind::Prefix { inflected, deinflected } => {
            let inf = chars_of(inflected.as_str());
            let de = chars_of(deinflected.as_str());
            if inf.len() == 0 {
                return None;
            }
            if !starts_with_chars(t, &inf) {
                return None;
            }
            let rest = t.len() - inf.len();
            if rest == 0 && de.len() == 0 {
                return None;
            }
            let mut out = sub_chars(&de, 0, de.len());
            let tail = sub_chars(t, inf.len(), t.len());
            append_chars(&mut out, &tail);
            proof {
                assert(de@.subrange(0, de@.len() as int) =~= de@);
                assert(out@ =~= deinflected@ + t@.skip(inflected@.len() as int));
            }
            Some(out)
        },
        RuleKind::EnglishPhrasalSuffix { inflected, deinflected } => {
            let inf = chars_of(inflected.as_str());
            let de = chars_of(deinflected.as_str());
            if inf.len() == 0 {
                return None;
            }
            let sp = find_space_chars(t, 0);
            if sp >= t.len() {
                return None;
            }
            let first = sub_chars(t, 0, sp);
            proof {
                assert(first@ =~= t@.take(find_space(t@, 0)));
            }
            if !ends_with_chars(&first, &inf) {
                return None;
            }
            let keep = sp - inf.len();
            if keep == 0 && de.len() == 0 {
                return None;
            }
            let mut out = sub_chars(t, 0, keep);
            append_chars(&mut out, &de);
            let tail = sub_chars(t, sp, t.len());
            append_chars(&mut out, &tail);
            proof {
                assert(out@ =~= t@.take(find_space(t@, 0) - inflected@.len()) + deinflected@
                    + t@.skip(find_space(t@, 0)));
            }
            Some(out)
        },
        RuleKind::EnglishPhrasalInterposedObject => {
            let sp1 = find_space_chars(t, 0);
            if sp1 == 0 || sp1 >= t.len() {
                return None;
            }
            let sp2 = find_space_chars(t, sp1 + 1);
            if sp2 <= sp1 + 1 || sp2 >= t.len() || sp2 + 1 >= t.len() {
                return None;
            }
            let mut out = sub_chars(t, 0, sp1 + 1);
            let tail = sub_chars(t, sp2 + 1, t.len());
            append_chars(&mut out, &tail);
            proof {
                let sp1s = find_space(t@, 0);
                let sp2s = find_space(t@, sp1s + 1);
                assert(out@ =~= t@.take(sp1s + 1) + t@.skip(sp2s + 1));
            }
            Some(out)
        },
    }
}

/// Applies one rule to a candidate's text and tag set, when it applies.
fn try_rule(
    conds: &Vec<(String, ConditionDefinition)>,
    rule: &RuleDefinition,
    cand_text: &Vec<char>,
    cand_conds: &Vec<String>,
) -> (r: Option<Vec<char>>)
    ensures
        (r is Some) == rule_applies(
            conds_model_seq(conds@),
            rule.model(),
            cand_text@,
            cand_conds.deep_view(),
        ),
        r matches Some(v) ==> v@ == apply_kind(rule.model().kind, cand_text@),
{
    if !cond_sat_exec(conds, cand_conds, &rule.conditions_in) {
        return None;
    }
    apply_kind_exec(&rule.kind, cand_text)
}

// ---------------------------------------------------------------------------
// Validation
// ---------------------------------------------------------------------------

/// Whether some condition bears the name `tag`.
fn tag_defined_exec(conds: &Vec<(String, ConditionDefinition)>, tag: &String) -> (r: bool)
    ensures
        r == tag_defined(conds_model_seq(conds@), tag@),
{
    let ghost cm = conds_model_seq(conds@);
    let mut k: usize = 0;
    while k < conds.len()
        invariant
            k <= conds@.len(),
            cm == conds_model_seq(conds@),
            cm.len() == conds@.len(),
            forall|j: int| 0 <= j < k ==> cm[j].name != tag@,
        decreases conds@.len() - k,
    {
        proof {
            assert(cm[k as int].name == conds@[k as int].0@);
        }
        if str_equal(&conds[k].0, tag) {
            return true;
        }
        k = k + 1;
    }
    false
}

/// Whether every tag in the list is defined.
fn tags_defined_exec(conds: &Vec<(String, ConditionDefinition)>, tags: &Vec<String>) -> (r: bool)
    ensures
        r == tags_defined(conds_model_seq(conds@), tags.deep_view()),
{
    let ghost cm = conds_model_seq(conds@);
    let ghost tm = tags.deep_view();
    let mut k: usize = 0;
    while k < tags.len()
        invariant
            k <= tags@.len(),
            cm == conds_model_seq(conds@),
            tm == tags.deep_view(),
            tm.len() == tags@.len(),
            forall|j: int| 0 <= j < k ==> tag_defined(cm, #[trigger] tm[j]),
        decreases tags@.len() - k,
    {
        proof {
            assert(tm[k as int] == tags@[k as int]@);
        }
        if !tag_defined_exec(conds, &tags[k]) {
            return false;
        }
        k = k + 1;
    }
    true
}

/// Whether condition names are pairwise distinct.
fn unique_names_exec(conds: &Vec<(String, ConditionDefinition)>) -> (r: bool)
    ensures
        r == unique_names(conds_model_seq(conds@)),
{
    let ghost cm = conds_model_seq(conds@);
    let mut i: usize = 0;
    while i < conds.len()
        invariant
            i <= conds@.len(),
            cm == conds_model_seq(conds@),
            cm.len() == conds@.len(),
            forall|x: int, y: int| 0 <= x < y < cm.len() && x < i ==> cm[x].name != cm[y].name,
        decreases conds@.len() - i,
    {
        let mut j = i + 1;
        while j < conds.len()
            invariant
                i < conds@.len(),
                i < j <= conds@.len(),
                cm == conds_model_seq(conds@),
                cm.len() == conds@.len(),
                forall|y: int| i < y < j ==> cm[i as int].name != cm[y].name,
            decreases conds@.len() - j,
        {
            proof {
                assert(cm[i as int].name == conds@[i as int].0@);
                assert(cm[j as int].name == conds@[j as int].0@);
            }
            if str_equal(&conds[i].0, &conds[j].0) {
                return false;
            }
            j = j + 1;
        }
        i = i + 1;
    }
    true
}

/// Whether a rule's inflected part, if it is an affix rule, is non-empty.
fn kind_wf_exec(kind: &RuleKind) -> (r: bool)
    ensures
        r == kind_wf(kind.model()),
{
    match kind {
        RuleKind::Suffix { inflected, .. } => !inflected.as_str().is_empty(),
        RuleKind::Prefix { inflected, .. } => !inflected.as_str().is_empty(),
        RuleKind::EnglishPhrasalSuffix { inflected, .. } => !inflected.as_str().is_empty(),
        RuleKind::EnglishPhrasalInterposedObject => true,
    }
}

/// Whether every sub-condition tag of every condition is defined.
fn subs_defined_exec(conds: &Vec<(String, ConditionDefinition)>) -> (r: bool)
    ensures
        r == conds_subs_defined(conds_model_seq(conds@)),
{
    let ghost cm = conds_model_seq(conds@);
    let mut k: usize = 0;
    while k < conds.len()
        invariant
            k <= conds@.len(),
            cm == conds_model_seq(conds@),
            cm.len() == conds@.len(),
            forall|j: int| 0 <= j < k ==> tags_defined(cm, (#[trigger] cm[j]).subs),
        decreases conds@.len() - k,
    {
        proof {
            assert(cm[k as int].subs == conds@[k as int].1.subs_model());
        }
        let ok = match &conds[k].1.sub_conditions {
            Some(subs) => tags_defined_exec(conds, subs),
            None => true,
        };
        if !ok {
            return false;
        }
        proof {
            if conds@[k as int].1.sub_conditions is None {
                assert(tags_defined(cm, cm[k as int].subs));
            }
        }
        k = k + 1;
    }
    true
}

/// Checks every rule of the descriptor, reporting the first kind of flaw.
fn check_rules(d: &Descriptor) -> (r: Option<TransformError>)
    ensures
        r is None <==> desc_tags_defined(d.model()) && desc_affixes_nonempty(d.model()),
        r == Some(TransformError::UndefinedTag) <==> !desc_tags_defined(d.model()),
        r == Some(TransformError::EmptyInflected) <==> desc_tags_defined(d.model())
            && !desc_affixes_nonempty(d.model()),
{
    let ghost m = d.model();
    if !subs_defined_exec(&d.conditions) {
        return Some(TransformError::UndefinedTag);
    }
    let mut g: usize = 0;
    while g < d.transforms.len()
        invariant
            g <= d.transforms@.len(),
            m == d.model(),
            m.groups.len() == d.transforms@.len(),
            conds_subs_defined(m.conditions),
            forall|x: int, y: int|
                0 <= x < g && 0 <= y < m.groups[x].rules.len() ==> rule_tags_defined(
                    m.conditions,
                    #[trigger] m.groups[x].rules[y],
                ),
        decreases d.transforms@.len() - g,
    {
        let rules = &d.transforms[g].rules;
        proof {
            assert(m.groups[g as int] == d.transforms@[g as int].model());
        }
        let mut ri: usize = 0;
        while ri < rules.len()
            invariant
                g < d.transforms@.len(),
                ri <= rules@.len(),
                m == d.model(),
                rules == &d.transforms@[g as int].rules,
                m.groups[g as int].rules.len() == rules@.len(),
                forall|y: int|
                    0 <= y < ri ==> rule_tags_defined(
                        m.conditions,
                        #[trigger] m.groups[g as int].rules[y],
                    ),
            decreases rules@.len() - ri,
        {
            proof {
                assert(m.groups[g as int].rules[ri as int] == rules@[ri as int].model());
            }
            if !tags_defined_exec(&d.conditions, &rules[ri].conditions_in) {
                proof {
                    assert(!rule_tags_defined(m.conditions, m.groups[g as int].rules[ri as int]));
                    assert(!groups_tags_defined(m));
                }
                return Some(TransformError::UndefinedTag);
            }
            if !tags_defined_exec(&d.conditions, &rules[ri].conditions_out) {
                proof {
                    assert(!rule_tags_defined(m.conditions, m.groups[g as int].rules[ri as int]));
                    assert(!groups_tags_defined(m));
                }
                return Some(TransformError::UndefinedTag);
            }
            ri = ri + 1;
        }
        g = g + 1;
    }
    let mut g: usize = 0;
    while g < d.transforms.len()
        invariant
            g <= d.transforms@.len(),
            m == d.model(),
            m.groups.len() == d.transforms@.len(),
            desc_tags_defined(m),
            forall|x: int, y: int|
                0 <= x < g && 0 <= y < m.groups[x].rules.len() ==> kind_wf(
                    (#[trigger] m.groups[x].rules[y]).kind,
                ),
        decreases d.transforms@.len() - g,
    {
        let rules = &d.transforms[g].rules;
        proof {
            assert(m.groups[g as int] == d.transforms@[g as int].model());
        }
        let mut ri: usize = 0;
        while ri < rules.len()
            invariant
                g < d.transforms@.len(),
                ri <= rules@.len(),
                m == d.model(),
                rules == &d.transforms@[g as int].rules,
                m.groups[g as int].rules.len() == rules@.len(),
                desc_tags_defined(m),
                forall|y: int|
                    0 <= y < ri ==> kind_wf((#[trigger] m.groups[g as int].rules[y]).kind),
            decreases rules@.len() - ri,
        {
            proof {
                assert(m.groups[g as int].rules[ri as int] == rules@[ri as int].model());
            }
            if !kind_wf_exec(&rules[ri].kind) {
                return Some(TransformError::EmptyInflected);
            }
            ri = ri + 1;
        }
        g = g + 1;
    }
    None
}

// ---------------------------------------------------------------------------
// The search and its contract
// ---------------------------------------------------------------------------

/// Some candidate in `rs` has the given de-duplication key.
pub open spec fn key_present_kv(rs: Seq<CandModel>, text: Seq<char>, conds: Seq<Seq<char>>) -> bool {
    exists|k: int| 0 <= k < rs.len() && rs[k].text == text && rs[k].conds == conds
}

/// Some candidate in `rs` shares `c`'s de-duplication key.
pub open spec fn key_present(rs: Seq<CandModel>, c: CandModel) -> bool {
    key_present_kv(rs, c.text, c.conds)
}

/// No two candidates share a de-duplication key.
pub open spec fn keys_distinct(rs: Seq<CandModel>) -> bool {
    forall|j: int, k: int| 0 <= j < k < rs.len() ==> cand_key(rs[j]) != cand_key(rs[k])
}

/// Candidate `k` arises from an earlier candidate by one applicable rule.
pub open spec fn derived_from_earlier(d: DescModel, rs: Seq<CandModel>, k: int) -> bool {
    exists|j: int, g: int, r: int|
        0 <= j < k && 0 <= g < d.groups.len() && 0 <= r < d.groups[g].rules.len() && rule_applies(
            d.conditions,
            d.groups[g].rules[r],
            rs[j].text,
            rs[j].conds,
        ) && rs[k] == step_cand(d.groups[g].id, d.groups[g].rules[r], rs[j])
}

/// Every rule applicable to candidate `j` yields a state already in `rs`.
pub open spec fn closed_at(d: DescModel, rs: Seq<CandModel>, j: int) -> bool {
    forall|g: int, r: int|
        0 <= g < d.groups.len() && 0 <= r < d.groups[g].rules.len() && rule_applies(
            d.conditions,
            #[trigger] d.groups[g].rules[r],
            rs[j].text,
            rs[j].conds,
        ) ==> key_present(rs, step_cand(d.groups[g].id, d.groups[g].rules[r], rs[j]))
}

/// Lexicographic order on scan positions: parent index first, then group,
/// then rule.
pub open spec fn pos_lt(j1: int, g1: int, r1: int, j2: int, g2: int, r2: int) -> bool {
    j1 < j2 || (j1 == j2 && (g1 < g2 || (g1 == g2 && r1 < r2)))
}

/// `c` is discovered at position `(j, g, r)` of the prefix `pre`: the rule
/// there applies and yields `c`, `c`'s state is new, and every
/// lexicographically earlier applicable position yields a state already in
/// `pre`.
pub open spec fn next_at(
    d: DescModel,
    pre: Seq<CandModel>,
    c: CandModel,
    j: int,
    g: int,
    r: int,
) -> bool {
    &&& 0 <= j < pre.len()
    &&& 0 <= g < d.groups.len()
    &&& 0 <= r < d.groups[g].rules.len()
    &&& rule_applies(d.conditions, d.groups[g].rules[r], pre[j].text, pre[j].conds)
    &&& c == step_cand(d.groups[g].id, d.groups[g].rules[r], pre[j])
    &&& !key_present(pre, c)
    &&& forall|j2: int, g2: int, r2: int|
        #[trigger] pos_lt(j2, g2, r2, j, g, r) && 0 <= j2 < pre.len() && 0 <= g2 < d.groups.len()
            && 0 <= r2 < d.groups[g2].rules.len() && rule_applies(
            d.conditions,
            d.groups[g2].rules[r2],
            pre[j2].text,
            pre[j2].conds,
        ) ==> key_present(pre, step_cand(d.groups[g2].id, d.groups[g2].rules[r2], pre[j2]))
}

/// `c` is the candidate discovered next after the prefix `pre`. At most
/// one candidate satisfies this for a given prefix, so this clause pins
/// discovery order.
pub open spec fn is_next(d: DescModel, pre: Seq<CandModel>, c: CandModel) -> bool {
    exists|j: int, g: int, r: int| next_at(d, pre, c, j, g, r)
}

/// The deinflection search's contract: the result starts with the identity
/// candidate, every further candidate arises from an earlier one by one
/// applicable rule, no state repeats, the result is closed under every
/// rule of the descriptor, and each candidate is the next discovery after
/// the candidates before it. Together these pin the result sequence
/// exactly: the search is a function of the descriptor and the text.
pub open spec fn engine_post(d: DescModel, t: Seq<char>, rs: Seq<CandModel>) -> bool {
    &&& rs.len() >= 1
    &&& rs[0] == seed_cand(t)
    &&& forall|k: int| 1 <= k < rs.len() ==> #[trigger] derived_from_earlier(d, rs, k)
    &&& keys_distinct(rs)
    &&& forall|j: int| 0 <= j < rs.len() ==> #[trigger] closed_at(d, rs, j)
    &&& forall|k: int| 1 <= k < rs.len() ==> #[trigger] is_next(d, rs.take(k), rs[k])
}

/// No-match invariant: when no rule of the descriptor applies to the
/// identity candidate, the search returns exactly one candidate, equal to
/// the input.
pub proof fn lemma_no_match_identity(d: DescModel, t: Seq<char>, rs: Seq<CandModel>)
    requires
        engine_post(d, t, rs),
        forall|g: int, r: int|
            0 <= g < d.groups.len() && 0 <= r < d.groups[g].rules.len() ==> !rule_applies(
                d.conditions,
                #[trigger] d.groups[g].rules[r],
                t,
                Seq::empty(),
            ),
    ensures
        rs.len() == 1,
        rs[0] == seed_cand(t),
{
    if rs.len() >= 2 {
        assert(derived_from_earlier(d, rs, 1));
        let (j, g, r): (int, int, int) = choose|j: int, g: int, r: int|
            0 <= j < 1 && 0 <= g < d.groups.len() && 0 <= r < d.groups[g].rules.len()
                && rule_applies(d.conditions, d.groups[g].rules[r], rs[j].text, rs[j].conds)
                && rs[1] == step_cand(d.groups[g].id, d.groups[g].rules[r], rs[j]);
        assert(rs[0] == seed_cand(t));
        assert(rule_applies(d.conditions, d.groups[g].rules[r], t, Seq::empty()));
    }
}

/// Gating: every candidate other than the identity was produced by a rule
/// whose required tags were satisfied by its parent's tag set (so a rule
/// whose requirement a candidate's tags do not cover never fires on it).
pub proof fn lemma_gating(d: DescModel, t: Seq<char>, rs: Seq<CandModel>, k: int)
    requires
        engine_post(d, t, rs),
        1 <= k < rs.len(),
    ensures
        exists|j: int, g: int, r: int|
            0 <= j < k && 0 <= g < d.groups.len() && 0 <= r < d.groups[g].rules.len() && cond_sat(
                d.conditions,
                rs[j].conds,
                d.groups[g].rules[r].conds_in,
            ) && kind_matches(d.groups[g].rules[r].kind, rs[j].text) && rs[k] == step_cand(
                d.groups[g].id,
                d.groups[g].rules[r],
                rs[j],
            ),
{
    assert(derived_from_earlier(d, rs, k));
    let (j, g, r): (int, int, int) = choose|j: int, g: int, r: int|
        0 <= j < k && 0 <= g < d.groups.len() && 0 <= r < d.groups[g].rules.len() && rule_applies(
            d.conditions,
            d.groups[g].rules[r],
            rs[j].text,
            rs[j].conds,
        ) && rs[k] == step_cand(d.groups[g].id, d.groups[g].rules[r], rs[j]);
    assert(cond_sat(d.conditions, rs[j].conds, d.groups[g].rules[r].conds_in) && kind_matches(
        d.groups[g].rules[r].kind,
        rs[j].text,
    ) && rs[k] == step_cand(d.groups[g].id, d.groups[g].rules[r], rs[j]));
}

/// Cycle safety, first half: no `(text, tags)` state ever repeats in a
/// search result, however the descriptor's rules chain or cycle.
pub proof fn lemma_states_distinct(d: DescModel, t: Seq<char>, rs: Seq<CandModel>)
    requires
        engine_post(d, t, rs),
    ensures
        forall|j: int, k: int| 0 <= j < k < rs.len() ==> cand_key(rs[j]) != cand_key(rs[k]),
{
}

/// Cycle safety, second half: when every rule of the descriptor assigns no
/// output tags, each text occurs at most once in a search result, so two
/// mutually convertible rules yield each form exactly once.
pub proof fn lemma_empty_conditions_texts_distinct(d: DescModel, t: Seq<char>, rs: Seq<CandModel>)
    requires
        engine_post(d, t, rs),
        forall|g: int, r: int|
            0 <= g < d.groups.len() && 0 <= r < d.groups[g].rules.len()
                ==> (#[trigger] d.groups[g].rules[r]).conds_out.len() == 0,
    ensures
        forall|j: int, k: int| 0 <= j < k < rs.len() ==> rs[j].text != rs[k].text,
{
    assert forall|k: int| 0 <= k < rs.len() implies rs[k].conds == Seq::<Seq<char>>::empty() by {
        if k == 0 {
            assert(rs[0] == seed_cand(t));
        } else {
            assert(derived_from_earlier(d, rs, k));
            let (j, g, r): (int, int, int) = choose|j: int, g: int, r: int|
                0 <= j < k && 0 <= g < d.groups.len() && 0 <= r < d.groups[g].rules.len()
                    && rule_applies(d.conditions, d.groups[g].rules[r], rs[j].text, rs[j].conds)
                    && rs[k] == step_cand(d.groups[g].id, d.groups[g].rules[r], rs[j]);
            assert(rs[k].conds == d.groups[g].rules[r].conds_out);
            assert(rs[k].conds =~= Seq::<Seq<char>>::empty());
        }
    }
    assert forall|j: int, k: int| 0 <= j < k < rs.len() implies rs[j].text != rs[k].text by {
        assert(cand_key(rs[j]) != cand_key(rs[k]));
        assert(rs[j].conds == rs[k].conds);
    }
}

proof fn lemma_is_next_unique(d: DescModel, pre: Seq<CandModel>, c1: CandModel, c2: CandModel)
    requires
        is_next(d, pre, c1),
        is_next(d, pre, c2),
    ensures
        c1 == c2,
{
    let (j1, g1, r1): (int, int, int) = choose|j: int, g: int, r: int| next_at(d, pre, c1, j, g, r);
    let (j2, g2, r2): (int, int, int) = choose|j: int, g: int, r: int| next_at(d, pre, c2, j, g, r);
    if pos_lt(j1, g1, r1, j2, g2, r2) {
        assert(key_present(pre, step_cand(d.groups[g1].id, d.groups[g1].rules[r1], pre[j1])));
        assert(key_present(pre, c1));
        assert(false);
    } else if pos_lt(j2, g2, r2, j1, g1, r1) {
        assert(key_present(pre, step_cand(d.groups[g2].id, d.groups[g2].rules[r2], pre[j2])));
        assert(key_present(pre, c2));
        assert(false);
    } else {
        assert(j1 == j2 && g1 == g2 && r1 == r2);
    }
}

proof fn lemma_engine_prefixes_equal(
    d: DescModel,
    t: Seq<char>,
    rs1: Seq<CandModel>,
    rs2: Seq<CandModel>,
    n: int,
)
    requires
        engine_post(d, t, rs1),
        engine_post(d, t, rs2),
        0 <= n <= rs1.len(),
        n <= rs2.len(),
    ensures
        rs1.take(n) == rs2.take(n),
    decreases n,
{
    if n == 0 {
        assert(rs1.take(0) =~= rs2.take(0));
    } else {
        lemma_engine_prefixes_equal(d, t, rs1, rs2, n - 1);
        if n - 1 == 0 {
            assert(rs1[0] == seed_cand(t) && rs2[0] == seed_cand(t));
        } else {
            assert(is_next(d, rs1.take(n - 1), rs1[n - 1]));
            assert(is_next(d, rs2.take(n - 1), rs2[n - 1]));
            lemma_is_next_unique(d, rs1.take(n - 1), rs1[n - 1], rs2[n - 1]);
        }
        assert(rs1.take(n) =~= rs2.take(n)) by {
            assert(forall|i: int|
                0 <= i < n - 1 ==> #[trigger] rs1.take(n - 1)[i] == rs2.take(n - 1)[i]);
        }
    }
}

/// Determinism: the search's contract admits exactly one result for a
/// given descriptor and text — any two sequences satisfying it are equal.
/// With `deinflect`'s ensures, deinflection is therefore a function of
/// its inputs: two calls on equal inputs return equal candidate lists.
pub proof fn lemma_engine_deterministic(
    d: DescModel,
    t: Seq<char>,
    rs1: Seq<CandModel>,
    rs2: Seq<CandModel>,
)
    requires
        engine_post(d, t, rs1),
        engine_post(d, t, rs2),
    ensures
        rs1 == rs2,
{
    // Neither result extends beyond the other: the shorter one is closed
    // under every rule, so no position of it can yield a new state.
    if rs1.len() < rs2.len() {
        let m = rs1.len() as int;
        lemma_engine_prefixes_equal(d, t, rs1, rs2, m);
        assert(is_next(d, rs2.take(m), rs2[m]));
        assert(rs1.take(m) =~= rs1);
        assert(rs2.take(m) == rs1);
        let (j, g, r): (int, int, int) = choose|j: int, g: int, r: int|
            next_at(d, rs1, rs2[m], j, g, r);
        assert(closed_at(d, rs1, j));
        assert(key_present(rs1, step_cand(d.groups[g].id, d.groups[g].rules[r], rs1[j])));
        assert(key_present(rs1, rs2[m]));
    } else if rs2.len() < rs1.len() {
        let m = rs2.len() as int;
        lemma_engine_prefixes_equal(d, t, rs2, rs1, m);
        assert(is_next(d, rs1.take(m), rs1[m]));
        assert(rs2.take(m) =~= rs2);
        assert(rs1.take(m) == rs2);
        let (j, g, r): (int, int, int) = choose|j: int, g: int, r: int|
            next_at(d, rs2, rs1[m], j, g, r);
        assert(closed_at(d, rs2, j));
        assert(key_present(rs2, step_cand(d.groups[g].id, d.groups[g].rules[r], rs2[j])));
        assert(key_present(rs2, rs1[m]));
    } else {
        lemma_engine_prefixes_equal(d, t, rs1, rs2, rs1.len() as int);
        assert(rs1.take(rs1.len() as int) =~= rs1);
        assert(rs2.take(rs2.len() as int) =~= rs2);
    }
}

proof fn lemma_cands_model_push(s: Seq<DeinflectionCandidate>, c: DeinflectionCandidate)
    ensures
        cands_model(s.push(c)) =~= cands_model(s).push(c.model()),
{
}

proof fn lemma_derived_push(d: DescModel, rs: Seq<CandModel>, x: CandModel, k: int)
    requires
        1 <= k < rs.len(),
        derived_from_earlier(d, rs, k),
    ensures
        derived_from_earlier(d, rs.push(x), k),
{
    let (j, g, r): (int, int, int) = choose|j: int, g: int, r: int|
        0 <= j < k && 0 <= g < d.groups.len() && 0 <= r < d.groups[g].rules.len() && rule_applies(
            d.conditions,
            d.groups[g].rules[r],
            rs[j].text,
            rs[j].conds,
        ) && rs[k] == step_cand(d.groups[g].id, d.groups[g].rules[r], rs[j]);
    assert(rs.push(x)[j] == rs[j]);
    assert(rs.push(x)[k] == rs[k]);
}

proof fn lemma_closed_at_push(d: DescModel, rs: Seq<CandModel>, x: CandModel, j: int)
    requires
        0 <= j < rs.len(),
        closed_at(d, rs, j),
    ensures
        closed_at(d, rs.push(x), j),
{
    let rs2 = rs.push(x);
    assert(rs2[j] == rs[j]);
    assert forall|g: int, r: int|
        0 <= g < d.groups.len() && 0 <= r < d.groups[g].rules.len() && rule_applies(
            d.conditions,
            #[trigger] d.groups[g].rules[r],
            rs2[j].text,
            rs2[j].conds,
        ) implies key_present(rs2, step_cand(d.groups[g].id, d.groups[g].rules[r], rs2[j])) by {
        assert(rule_applies(d.conditions, d.groups[g].rules[r], rs[j].text, rs[j].conds));
        assert(key_present(rs, step_cand(d.groups[g].id, d.groups[g].rules[r], rs[j])));
        let w = choose|w: int|
            0 <= w < rs.len() && rs[w].text == step_cand(
                d.groups[g].id,
                d.groups[g].rules[r],
                rs[j],
            ).text && rs[w].conds == step_cand(d.groups[g].id, d.groups[g].rules[r], rs[j]).conds;
        assert(rs2[w] == rs[w]);
    }
}

proof fn lemma_is_next_push(d: DescModel, rs: Seq<CandModel>, x: CandModel, k: int)
    requires
        1 <= k < rs.len(),
        is_next(d, rs.take(k), rs[k]),
    ensures
        is_next(d, rs.push(x).take(k), rs.push(x)[k]),
{
    assert(rs.push(x).take(k) =~= rs.take(k));
    assert(rs.push(x)[k] == rs[k]);
}

/// All rule instances lexicographically before `(g, r)` that apply to the
/// candidate `pm` already have their resulting state in `rs`.
spec fn processed_upto(d: DescModel, rs: Seq<CandModel>, pm: CandModel, g: int, r: int) -> bool {
    forall|x: int, y: int|
        ((0 <= x < g && 0 <= y < d.groups[x].rules.len()) || (x == g && 0 <= y < r))
            && rule_applies(
            d.conditions,
            #[trigger] d.groups[x].rules[y],
            pm.text,
            pm.conds,
        ) ==> key_present(rs, step_cand(d.groups[x].id, d.groups[x].rules[y], pm))
}

proof fn lemma_processed_push(
    d: DescModel,
    rs: Seq<CandModel>,
    pm: CandModel,
    x: CandModel,
    g: int,
    r: int,
)
    requires
        processed_upto(d, rs, pm, g, r),
    ensures
        processed_upto(d, rs.push(x), pm, g, r),
{
    let rs2 = rs.push(x);
    assert forall|a: int, b: int|
        ((0 <= a < g && 0 <= b < d.groups[a].rules.len()) || (a == g && 0 <= b < r))
            && rule_applies(
            d.conditions,
            #[trigger] d.groups[a].rules[b],
            pm.text,
            pm.conds,
        ) implies key_present(rs2, step_cand(d.groups[a].id, d.groups[a].rules[b], pm)) by {
        assert(key_present(rs, step_cand(d.groups[a].id, d.groups[a].rules[b], pm)));
        let sc = step_cand(d.groups[a].id, d.groups[a].rules[b], pm);
        let w = choose|w: int| 0 <= w < rs.len() && rs[w].text == sc.text && rs[w].conds == sc.conds;
        assert(rs2[w] == rs[w]);
    }
}

/// Whether two tag lists hold the same tags in the same order.
fn tags_equal(a: &Vec<String>, b: &Vec<String>) -> (r: bool)
    ensures
        r == (a.deep_view() == b.deep_view()),
{
    if a.len() != b.len() {
        proof {
            assert(a.deep_view().len() != b.deep_view().len());
        }
        return false;
    }
    let mut k: usize = 0;
    while k < a.len()
        invariant
            a@.len() == b@.len(),
            k <= a@.len(),
            forall|j: int| 0 <= j < k ==> a@[j]@ == b@[j]@,
        decreases a@.len() - k,
    {
        if !str_equal(&a[k], &b[k]) {
            proof {
                assert(a.deep_view()[k as int] != b.deep_view()[k as int]);
            }
            return false;
        }
        k = k + 1;
    }
    proof {
        assert(a.deep_view() =~= b.deep_view());
    }
    true
}

/// Whether some already-found candidate has this `(text, tags)` state.
fn key_present_exec(
    results: &Vec<DeinflectionCandidate>,
    text: &String,
    conds: &Vec<String>,
) -> (r: bool)
    ensures
        r == key_present_kv(cands_model(results@), text@, conds.deep_view()),
{
    let ghost rs = cands_model(results@);
    let mut k: usize = 0;
    while k < results.len()
        invariant
            k <= results@.len(),
            rs == cands_model(results@),
            rs.len() == results@.len(),
            forall|j: int| 0 <= j < k ==> !(rs[j].text == text@ && rs[j].conds == conds.deep_view()),
        decreases results@.len() - k,
    {
        proof {
            assert(rs[k as int] == results@[k as int].model());
        }
        if str_equal(&results[k].text, text) {
            if tags_equal(&results[k].conditions, conds) {
                return true;
            }
        }
        k = k + 1;
    }
    false
}

// ---------------------------------------------------------------------------
// The transformer
// ---------------------------------------------------------------------------

/// A validated language descriptor, ready for deinflection. Built once at
/// startup and immutable afterwards.
pub struct LanguageTransformer {
    descriptor: Descriptor,
}

impl View for LanguageTransformer {
    type V = DescModel;

    closed spec fn view(&self) -> DescModel {
        self.descriptor.model()
    }
}

impl LanguageTransformer {
    #[verifier::type_invariant]
    spec fn type_inv(self) -> bool {
        desc_wf(self.descriptor.model())
    }

    /// Validates a descriptor. Succeeds exactly on well-formed descriptors,
    /// and reports the first kind of flaw otherwise: duplicate condition
    /// names, then undefined tags, then empty inflected parts.
    pub fn from_descriptor(descriptor: Descriptor) -> (r: Result<LanguageTransformer, TransformError>)
        ensures
            r matches Ok(t) ==> t@ == descriptor.model(),
            r is Ok <==> desc_wf(descriptor.model()),
            !unique_names(descriptor.model().conditions) ==> r == Err::<
                LanguageTransformer,
                TransformError,
            >(TransformError::DuplicateCondition),
            unique_names(descriptor.model().conditions) && !desc_tags_defined(descriptor.model())
                ==> r == Err::<LanguageTransformer, TransformError>(TransformError::UndefinedTag),
            unique_names(descriptor.model().conditions) && desc_tags_defined(descriptor.model())
                && !desc_affixes_nonempty(descriptor.model()) ==> r == Err::<
                LanguageTransformer,
                TransformError,
            >(TransformError::EmptyInflected),
    {
        if !unique_names_exec(&descriptor.conditions) {
            return Err(TransformError::DuplicateCondition);
        }
        match check_rules(&descriptor) {
            Some(e) => Err(e),
            None => Ok(LanguageTransformer { descriptor }),
        }
    }

    /// The deinflection search: starting from the identity candidate,
    /// repeatedly applies every applicable rule, skipping any `(text, tags)`
    /// state seen before, until no candidate yields a new state. Candidates
    /// appear in discovery (breadth-first) order.
    pub fn deinflect(&self, text: &str) -> (results: Vec<DeinflectionCandidate>)
        ensures
            engine_post(self@, text@, cands_model(results@)),
    {
        let ghost d = self@;
        let mut results: Vec<DeinflectionCandidate> = Vec::new();
        results.push(
            DeinflectionCandidate {
                text: text.to_owned(),
                conditions: Vec::new(),
                trace: Vec::new(),
            },
        );
        proof {
            assert(results@[0].conditions.deep_view() =~= Seq::<Seq<char>>::empty());
            assert(results@[0].trace.deep_view() =~= Seq::<Seq<char>>::empty());
            assert(cands_model(results@)[0] =~= seed_cand(text@));
        }
        let mut i: usize = 0;
        while i < results.len()
            invariant
                i <= results@.len(),
                d == self@,
                cands_model(results@).len() == results@.len(),
                cands_model(results@).len() >= 1,
                cands_model(results@)[0] == seed_cand(text@),
                forall|k: int|
                    1 <= k < results@.len() ==> #[trigger] derived_from_earlier(
                        d,
                        cands_model(results@),
                        k,
                    ),
                keys_distinct(cands_model(results@)),
                forall|j: int| 0 <= j < i ==> #[trigger] closed_at(d, cands_model(results@), j),
                forall|k: int|
                    1 <= k < results@.len() ==> #[trigger] is_next(
                        d,
                        cands_model(results@).take(k),
                        cands_model(results@)[k],
                    ),
            decreases usize::MAX - i,
        {
            let parent_text_str = results[i].text.clone();
            let parent_text = chars_of(parent_text_str.as_str());
            let parent_conds = clone_tags(&results[i].conditions);
            let parent_trace = clone_tags(&results[i].trace);
            let ghost pm = cands_model(results@)[i as int];
            proof {
                assert(pm == results@[i as int].model());
                assert(parent_text@ == pm.text);
                assert(parent_conds.deep_view() == pm.conds);
                assert(parent_trace.deep_view() == pm.trace);
            }
            let ngroups = self.descriptor.transforms.len();
            let mut g: usize = 0;
            while g < ngroups
                invariant
                    i < results@.len(),
                    g <= ngroups,
                    d == self@,
                    ngroups == d.groups.len(),
                    cands_model(results@).len() == results@.len(),
                    cands_model(results@).len() >= 1,
                    cands_model(results@)[0] == seed_cand(text@),
                    pm == cands_model(results@)[i as int],
                    parent_text@ == pm.text,
                    parent_conds.deep_view() == pm.conds,
                    parent_trace.deep_view() == pm.trace,
                    forall|k: int|
                        1 <= k < results@.len() ==> #[trigger] derived_from_earlier(
                            d,
                            cands_model(results@),
                            k,
                        ),
                    keys_distinct(cands_model(results@)),
                    forall|j: int|
                        0 <= j < i ==> #[trigger] closed_at(d, cands_model(results@), j),
                    forall|k: int|
                        1 <= k < results@.len() ==> #[trigger] is_next(
                            d,
                            cands_model(results@).take(k),
                            cands_model(results@)[k],
                        ),
                    processed_upto(d, cands_model(results@), pm, g as int, 0),
                decreases ngroups - g,
            {
                let nrules = self.descriptor.transforms[g].rules.len();
                proof {
                    assert(d.groups[g as int] == self.descriptor.transforms@[g as int].model());
                }
                let mut r: usize = 0;
                while r < nrules
                    invariant
                        i < results@.len(),
                        g < ngroups,
                        r <= nrules,
                        d == self@,
                        ngroups == d.groups.len(),
                        nrules == d.groups[g as int].rules.len(),
                        cands_model(results@).len() == results@.len(),
                        cands_model(results@).len() >= 1,
                        cands_model(results@)[0] == seed_cand(text@),
                        pm == cands_model(results@)[i as int],
                        parent_text@ == pm.text,
                        parent_conds.deep_view() == pm.conds,
                        parent_trace.deep_view() == pm.trace,
                        forall|k: int|
                            1 <= k < results@.len() ==> #[trigger] derived_from_earlier(
                                d,
                                cands_model(results@),
                                k,
                            ),
                        keys_distinct(cands_model(results@)),
                        forall|j: int|
                            0 <= j < i ==> #[trigger] closed_at(d, cands_model(results@), j),
                        forall|k: int|
                            1 <= k < results@.len() ==> #[trigger] is_next(
                                d,
                                cands_model(results@).take(k),
                                cands_model(results@)[k],
                            ),
                        processed_upto(d, cands_model(results@), pm, g as int, r as int),
                    decreases nrules - r,
                {
                    let ghost rule_m = d.groups[g as int].rules[r as int];
                    proof {
                        assert(d.groups[g as int] == self.descriptor.transforms@[g as int].model());
                        assert(rule_m == self.descriptor.transforms@[g as int].rules@[r as int].model());
                    }
                    let rule = &self.descriptor.transforms[g].rules[r];
                    match try_rule(&self.descriptor.conditions, rule, &parent_text, &parent_conds) {
                        Some(new_text_chars) => {
                            let new_text = string_of(&new_text_chars);
                            let new_conds = clone_tags(&rule.conditions_out);
                            let mut new_trace = clone_tags(&parent_trace);
                            new_trace.push(self.descriptor.transforms[g].id.clone());
                            let cand = DeinflectionCandidate {
                                text: new_text,
                                conditions: new_conds,
                                trace: new_trace,
                            };
                            let ghost sc = step_cand(d.groups[g as int].id, rule_m, pm);
                            proof {
                                assert(cand.model().trace =~= pm.trace.push(
                                    d.groups[g as int].id,
                                ));
                                assert(cand.model() =~= sc);
                            }
                            let already = key_present_exec(&results, &cand.text, &cand.conditions);
                            if !already {
                                proof {
                                    let rs = cands_model(results@);
                                    let rs2 = rs.push(cand.model());
                                    lemma_cands_model_push(results@, cand);
                                    assert forall|k: int|
                                        1 <= k < rs2.len() implies #[trigger] derived_from_earlier(
                                        d,
                                        rs2,
                                        k,
                                    ) by {
                                        if k < rs.len() {
                                            lemma_derived_push(d, rs, cand.model(), k);
                                        } else {
                                            assert(rs2[k] == sc);
                                            assert(rs2[i as int] == pm);
                                            assert(rule_applies(
                                                d.conditions,
                                                d.groups[g as int].rules[r as int],
                                                rs2[i as int].text,
                                                rs2[i as int].conds,
                                            ));
                                            assert(0 <= i < k && 0 <= g < d.groups.len() && 0 <= r
                                                < d.groups[g as int].rules.len() && rule_applies(
                                                d.conditions,
                                                d.groups[g as int].rules[r as int],
                                                rs2[i as int].text,
                                                rs2[i as int].conds,
                                            ) && rs2[k] == step_cand(
                                                d.groups[g as int].id,
                                                d.groups[g as int].rules[r as int],
                                                rs2[i as int],
                                            ));
                                        }
                                    }
                                    assert forall|j: int, k: int|
                                        0 <= j < k < rs2.len() implies cand_key(rs2[j])
                                        != cand_key(rs2[k]) by {
                                        if k < rs.len() {
                                            assert(rs2[j] == rs[j] && rs2[k] == rs[k]);
                                        } else {
                                            assert(rs2[j] == rs[j]);
                                            assert(!(rs[j].text == cand.model().text && rs[j].conds
                                                == cand.model().conds));
                                        }
                                    }
                                    assert forall|j: int|
                                        0 <= j < i implies #[trigger] closed_at(d, rs2, j) by {
                                        lemma_closed_at_push(d, rs, cand.model(), j);
                                    }
                                    lemma_processed_push(d, rs, pm, cand.model(), g as int, r as int);
                                    assert forall|k: int|
                                        1 <= k < rs2.len() implies #[trigger] is_next(
                                        d,
                                        rs2.take(k),
                                        rs2[k],
                                    ) by {
                                        if k < rs.len() {
                                            lemma_is_next_push(d, rs, cand.model(), k);
                                        } else {
                                            assert(rs2.take(k) =~= rs);
                                            assert(rs2[k] == sc);
                                            assert(!key_present(rs, sc)) by {
                                                assert(sc.text == cand.model().text && sc.conds
                                                    == cand.model().conds);
                                            }
                                            assert forall|j2: int, g2: int, r2: int|
                                                #[trigger] pos_lt(
                                                    j2,
                                                    g2,
                                                    r2,
                                                    i as int,
                                                    g as int,
                                                    r as int,
                                                ) && 0 <= j2 < rs.len() && 0 <= g2 < d.groups.len()
                                                    && 0 <= r2 < d.groups[g2].rules.len()
                                                    && rule_applies(
                                                    d.conditions,
                                                    d.groups[g2].rules[r2],
                                                    rs[j2].text,
                                                    rs[j2].conds,
                                                ) implies key_present(
                                                rs,
                                                step_cand(
                                                    d.groups[g2].id,
                                                    d.groups[g2].rules[r2],
                                                    rs[j2],
                                                ),
                                            ) by {
                                                if j2 < i {
                                                    assert(closed_at(d, rs, j2));
                                                } else {
                                                    assert(j2 == i as int);
                                                    assert(rs[j2] == pm);
                                                    assert(processed_upto(
                                                        d,
                                                        rs,
                                                        pm,
                                                        g as int,
                                                        r as int,
                                                    ));
                                                }
                                            }
                                            assert(rule_applies(
                                                d.conditions,
                                                d.groups[g as int].rules[r as int],
                                                rs[i as int].text,
                                                rs[i as int].conds,
                                            ));
                                            assert(sc == step_cand(
                                                d.groups[g as int].id,
                                                d.groups[g as int].rules[r as int],
                                                rs[i as int],
                                            ));
                                            assert(next_at(d, rs, sc, i as int, g as int, r as int));
                                            assert(is_next(d, rs, sc));
                                            assert(is_next(d, rs2.take(k), rs2[k]));
                                        }
                                    }
                                }
                                results.push(cand);
                                proof {
                                    let rs2 = cands_model(results@);
                                    assert(rs2[rs2.len() - 1] == cand.model());
                                    assert(rs2[rs2.len() - 1].text == sc.text && rs2[rs2.len()
                                        - 1].conds == sc.conds);
                                    assert(key_present_kv(rs2, sc.text, sc.conds));
                                }
                            } else {
                                proof {
                                    assert(cand.model().text == sc.text && cand.model().conds
                                        == sc.conds);
                                    assert(key_present_kv(cands_model(results@), sc.text, sc.conds));
                                }
                            }
                            proof {
                                assert(key_present(
                                    cands_model(results@),
                                    step_cand(
                                        d.groups[g as int].id,
                                        d.groups[g as int].rules[r as int],
                                        pm,
                                    ),
                                ));
                            }
                        },
                        None => {},
                    }
                    proof {
                        let rs = cands_model(results@);
                        assert forall|x: int, y: int|
                            ((0 <= x < g as int && 0 <= y < d.groups[x].rules.len()) || (x
                                == g as int && 0 <= y < r + 1)) && rule_applies(
                                d.conditions,
                                #[trigger] d.groups[x].rules[y],
                                pm.text,
                                pm.conds,
                            ) implies key_present(
                            rs,
                            step_cand(d.groups[x].id, d.groups[x].rules[y], pm),
                        ) by {
                            if !(x == g as int && y == r as int) {
                                assert(processed_upto(d, rs, pm, g as int, r as int));
                            }
                        }
                    }
                    r = r + 1;
                }
                proof {
                    assert(processed_upto(d, cands_model(results@), pm, g + 1 as int, 0));
                }
                g = g + 1;
            }
            proof {
                let rs = cands_model(results@);
                assert forall|gg: int, rr: int|
                    0 <= gg < d.groups.len() && 0 <= rr < d.groups[gg].rules.len() && rule_applies(
                        d.conditions,
                        #[trigger] d.groups[gg].rules[rr],
                        rs[i as int].text,
                        rs[i as int].conds,
                    ) implies key_present(
                    rs,
                    step_cand(d.groups[gg].id, d.groups[gg].rules[rr], rs[i as int]),
                ) by {
                    assert(processed_upto(d, rs, pm, ngroups as int, 0));
                }
                assert(closed_at(d, rs, i as int));
            }
            i = i + 1;
        }
        results
    }

    /// The distinct candidate texts reachable from `text`, in discovery
    /// order, as produced by one run of the deinflection search.
    pub fn deinflect_terms(&self, text: &str) -> (terms: Vec<String>)
        ensures
            exists|rs: Seq<CandModel>|
                #[trigger] engine_post(self@, text@, rs) && terms.deep_view() == rs.map_values(
                    |c: CandModel| c.text,
                ),
    {
        let cands = self.deinflect(text);
        let ghost rs = cands_model(cands@);
        let ghost texts = rs.map_values(|c: CandModel| c.text);
        let mut terms: Vec<String> = Vec::new();
        let mut k: usize = 0;
        while k < cands.len()
            invariant
                k <= cands@.len(),
                rs == cands_model(cands@),
                texts == rs.map_values(|c: CandModel| c.text),
                texts.len() == cands@.len(),
                terms@.len() == k,
                terms.deep_view() == texts.take(k as int),
            decreases cands@.len() - k,
        {
            terms.push(cands[k].text.clone());
            proof {
                assert(texts[k as int] == rs[k as int].text);
                assert(rs[k as int] == cands@[k as int].model());
                assert(terms@.len() == k + 1);
                assert(terms@[k as int]@ == texts[k as int]);
                assert forall|j: int| 0 <= j < k + 1 implies terms.deep_view()[j] == texts.take(
                    k + 1 as int,
                )[j] by {
                    assert(terms.deep_view()[j] == terms@[j]@);
                }
                assert(terms.deep_view() =~= texts.take(k + 1 as int));
            }
            k = k + 1;
        }
        proof {
            assert(terms.deep_view() =~= texts.take(texts.len() as int));
            assert(texts.take(texts.len() as int) =~= texts);
            assert(engine_post(self@, text@, rs) && terms.deep_view() == rs.map_values(
                |c: CandModel| c.text,
            ));
        }
        terms
    }
}

} // verus!
