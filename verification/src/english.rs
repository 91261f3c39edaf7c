//! The English descriptor, built programmatically: regular inflection
//! families (past tense, progressive, plural, comparative, ...), each with
//! generated doubled-final-consonant variants, and phrasal-verb variants
//! derived from the suffix rules.

use vstd::prelude::*;
use vstd::string::StringExecFns;

use crate::text::{prefix_of, push_char, suffix_of};
use crate::transformer::{
    apply_kind, CandModel, clone_tags, closed_at, cond_sat, conds_model_seq, conds_subs_defined,
    CondModel, ConditionDefinition, desc_affixes_nonempty, desc_tags_defined, desc_wf, DescModel,
    Descriptor, engine_post, GroupModel, groups_tags_defined, key_present, kind_matches, kind_wf,
    KindModel, LanguageTransformer, rule_applies, rule_tags_defined,
    RuleDefinition, RuleKind, RuleModel, seed_cand, step_cand, tag_defined, tags_defined,
    TransformDefinition, TransformError, unique_names,
};

verus! {

/// A tag list of one name.
fn tags1(a: &str) -> (r: Vec<String>)
    ensures
        r.deep_view() == seq![a@],
{
    let mut r: Vec<String> = Vec::new();
    r.push(a.to_owned());
    proof {
        assert(r.deep_view() =~= seq![a@]);
    }
    r
}

/// A tag list of two names.
fn tags2(a: &str, b: &str) -> (r: Vec<String>)
    ensures
        r.deep_view() == seq![a@, b@],
{
    let mut r: Vec<String> = Vec::new();
    r.push(a.to_owned());
    r.push(b.to_owned());
    proof {
        assert(r.deep_view() =~= seq![a@, b@]);
    }
    r
}

/// A tag list of three names.
fn tags3(a: &str, b: &str, c: &str) -> (r: Vec<String>)
    ensures
        r.deep_view() == seq![a@, b@, c@],
{
    let mut r: Vec<String> = Vec::new();
    r.push(a.to_owned());
    r.push(b.to_owned());
    r.push(c.to_owned());
    proof {
        assert(r.deep_view() =~= seq![a@, b@, c@]);
    }
    r
}

/// A suffix rule with the given affix pair and tag sets.
fn suffix_rule(
    inflected: &str,
    deinflected: &str,
    conditions_in: Vec<String>,
    conditions_out: Vec<String>,
) -> (r: RuleDefinition)
    ensures
        r.model() == (RuleModel {
            kind: KindModel::Suffix { inflected: inflected@, deinflected: deinflected@ },
            conds_in: conditions_in.deep_view(),
            conds_out: conditions_out.deep_view(),
        }),
{
    RuleDefinition {
        kind: RuleKind::Suffix {
            inflected: inflected.to_owned(),
            deinflected: deinflected.to_owned(),
        },
        conditions_in,
        conditions_out,
    }
}

/// A prefix rule with the given affix pair and tag sets.
fn prefix_rule(
    inflected: &str,
    deinflected: &str,
    conditions_in: Vec<String>,
    conditions_out: Vec<String>,
) -> (r: RuleDefinition)
    ensures
        r.model() == (RuleModel {
            kind: KindModel::Prefix { inflected: inflected@, deinflected: deinflected@ },
            conds_in: conditions_in.deep_view(),
            conds_out: conditions_out.deep_view(),
        }),
{
    RuleDefinition {
        kind: RuleKind::Prefix {
            inflected: inflected.to_owned(),
            deinflected: deinflected.to_owned(),
        },
        conditions_in,
        conditions_out,
    }
}

/// The doubled-consonant variant rules of one inflection family: for each
/// consonant `c` of `consonants`, a suffix rule turning `cc` + `suffix`
/// back into `c`.
fn doubled_consonant_inflection(
    consonants: &str,
    suffix: &str,
    conditions_in: &Vec<String>,
    conditions_out: &Vec<String>,
) -> (r: Vec<RuleDefinition>)
    ensures
        r@.len() == consonants@.len(),
        forall|i: int|
            0 <= i < r@.len() ==> (#[trigger] r@[i]).model() == (RuleModel {
                kind: KindModel::Suffix {
                    inflected: seq![consonants@[i], consonants@[i]] + suffix@,
                    deinflected: seq![consonants@[i]],
                },
                conds_in: conditions_in.deep_view(),
                conds_out: conditions_out.deep_view(),
            }),
{
    let n = consonants.unicode_len();
    let mut r: Vec<RuleDefinition> = Vec::new();
    let mut i: usize = 0;
    while i < n
        invariant
            n == consonants@.len(),
            i <= n,
            r@.len() == i,
            forall|j: int|
                0 <= j < i ==> (#[trigger] r@[j]).model() == (RuleModel {
                    kind: KindModel::Suffix {
                        inflected: seq![consonants@[j], consonants@[j]] + suffix@,
                        deinflected: seq![consonants@[j]],
                    },
                    conds_in: conditions_in.deep_view(),
                    conds_out: conditions_out.deep_view(),
                }),
        decreases n - i,
    {
        let c = consonants.get_char(i);
        let mut inflected = String::new();
        push_char(&mut inflected, c);
        push_char(&mut inflected, c);
        inflected.append(suffix);
        let mut deinflected = String::new();
        push_char(&mut deinflected, c);
        proof {
            assert(inflected@ =~= seq![consonants@[i as int], consonants@[i as int]] + suffix@);
            assert(deinflected@ =~= seq![consonants@[i as int]]);
        }
        r.push(
            RuleDefinition {
                kind: RuleKind::Suffix { inflected, deinflected },
                conditions_in: clone_tags(conditions_in),
                conditions_out: clone_tags(conditions_out),
            },
        );
        i = i + 1;
    }
    r
}

/// The phrasal-verb variants of a rule family: each suffix rule of the
/// family, retagged to require a verb and to produce a phrasal verb.
pub open spec fn phrasal_of(rs: Seq<RuleModel>) -> Seq<RuleModel>
    decreases rs.len(),
{
    if rs.len() == 0 {
        Seq::empty()
    } else {
        let rest = phrasal_of(rs.skip(1));
        match rs[0].kind {
            KindModel::Suffix { inflected, deinflected } => seq![
                RuleModel {
                    kind: KindModel::PhrasalSuffix { inflected, deinflected },
                    conds_in: seq!["v"@],
                    conds_out: seq!["v_phr"@],
                },
            ] + rest,
            _ => rest,
        }
    }
}

/// The models of a sequence of rules.
pub open spec fn rules_model(rs: Seq<RuleDefinition>) -> Seq<RuleModel> {
    rs.map_values(|r: RuleDefinition| r.model())
}

/// The model of one suffix rule.
pub open spec fn sfx_rule(
    inflected: Seq<char>,
    deinflected: Seq<char>,
    cin: Seq<Seq<char>>,
    cout: Seq<Seq<char>>,
) -> RuleModel {
    RuleModel { kind: KindModel::Suffix { inflected, deinflected }, conds_in: cin, conds_out: cout }
}

/// The model of one prefix rule.
pub open spec fn pfx_rule(
    inflected: Seq<char>,
    deinflected: Seq<char>,
    cin: Seq<Seq<char>>,
    cout: Seq<Seq<char>>,
) -> RuleModel {
    RuleModel { kind: KindModel::Prefix { inflected, deinflected }, conds_in: cin, conds_out: cout }
}

/// The doubled-final-consonant variants of one family: for each consonant
/// `c`, the suffix rule turning `cc` + `suffix` back into `c`.
pub open spec fn doubled_family(
    consonants: Seq<char>,
    suffix: Seq<char>,
    cin: Seq<Seq<char>>,
    cout: Seq<Seq<char>>,
) -> Seq<RuleModel> {
    Seq::new(
        consonants.len(),
        |i: int| sfx_rule(
            seq![consonants[i], consonants[i]] + suffix,
            seq![consonants[i]],
            cin,
            cout,
        ),
    )
}

/// The past-tense family.
pub open spec fn past_family() -> Seq<RuleModel> {
    seq![
        sfx_rule("ed"@, ""@, seq!["v"@], seq!["v"@]),
        sfx_rule("ed"@, "e"@, seq!["v"@], seq!["v"@]),
        sfx_rule("ied"@, "y"@, seq!["v"@], seq!["v"@]),
        sfx_rule("cked"@, "c"@, seq!["v"@], seq!["v"@]),
    ] + doubled_family("bdgklmnprstz"@, "ed"@, seq!["v"@], seq!["v"@]) + seq![
        sfx_rule("laid"@, "lay"@, seq!["v"@], seq!["v"@]),
        sfx_rule("paid"@, "pay"@, seq!["v"@], seq!["v"@]),
        sfx_rule("said"@, "say"@, seq!["v"@], seq!["v"@]),
    ]
}

/// The progressive family.
pub open spec fn ing_family() -> Seq<RuleModel> {
    seq![
        sfx_rule("ing"@, ""@, seq!["v"@], seq!["v"@]),
        sfx_rule("ing"@, "e"@, seq!["v"@], seq!["v"@]),
        sfx_rule("ying"@, "ie"@, seq!["v"@], seq!["v"@]),
        sfx_rule("cking"@, "c"@, seq!["v"@], seq!["v"@]),
    ] + doubled_family("bdgklmnprstz"@, "ing"@, seq!["v"@], seq!["v"@])
}

/// The third-person singular present family.
pub open spec fn third_family() -> Seq<RuleModel> {
    seq![
        sfx_rule("s"@, ""@, seq!["v"@], seq!["v"@]),
        sfx_rule("es"@, ""@, seq!["v"@], seq!["v"@]),
        sfx_rule("ies"@, "y"@, seq!["v"@], seq!["v"@]),
    ]
}

/// The noun-plural family.
pub open spec fn plural_family() -> Seq<RuleModel> {
    seq![
        sfx_rule("s"@, ""@, seq!["np"@], seq!["ns"@]),
        sfx_rule("es"@, ""@, seq!["np"@], seq!["ns"@]),
        sfx_rule("ies"@, "y"@, seq!["np"@], seq!["ns"@]),
        sfx_rule("ves"@, "fe"@, seq!["np"@], seq!["ns"@]),
        sfx_rule("ves"@, "f"@, seq!["np"@], seq!["ns"@]),
    ]
}

/// The possessive family.
pub open spec fn possessive_family() -> Seq<RuleModel> {
    seq![
        sfx_rule("'s"@, ""@, seq!["n"@], seq!["n"@]),
        sfx_rule("s'"@, "s"@, seq!["n"@], seq!["n"@]),
    ]
}

/// The adverb family.
pub open spec fn adverb_family() -> Seq<RuleModel> {
    seq![
        sfx_rule("ly"@, ""@, seq!["adv"@], seq!["adj"@]),
        sfx_rule("ily"@, "y"@, seq!["adv"@], seq!["adj"@]),
        sfx_rule("ly"@, "le"@, seq!["adv"@], seq!["adj"@]),
    ]
}

/// The comparative family.
pub open spec fn comparative_family() -> Seq<RuleModel> {
    seq![
        sfx_rule("er"@, ""@, seq!["adj"@], seq!["adj"@]),
        sfx_rule("er"@, "e"@, seq!["adj"@], seq!["adj"@]),
        sfx_rule("ier"@, "y"@, seq!["adj"@], seq!["adj"@]),
    ] + doubled_family("bdgmnt"@, "er"@, seq!["adj"@], seq!["adj"@])
}

/// The superlative family.
pub open spec fn superlative_family() -> Seq<RuleModel> {
    seq![
        sfx_rule("est"@, ""@, seq!["adj"@], seq!["adj"@]),
        sfx_rule("est"@, "e"@, seq!["adj"@], seq!["adj"@]),
        sfx_rule("iest"@, "y"@, seq!["adj"@], seq!["adj"@]),
    ] + doubled_family("bdgmnt"@, "est"@, seq!["adj"@], seq!["adj"@])
}

/// The derivational -y family.
pub open spec fn y_family() -> Seq<RuleModel> {
    seq![
        sfx_rule("y"@, ""@, seq!["adj"@], seq!["n"@, "v"@]),
        sfx_rule("y"@, "e"@, seq!["adj"@], seq!["n"@, "v"@]),
    ] + doubled_family("glmnprst"@, "y"@, Seq::empty(), seq!["n"@, "v"@])
}

/// The derivational -able family.
pub open spec fn able_family() -> Seq<RuleModel> {
    seq![
        sfx_rule("able"@, ""@, seq!["v"@], seq!["adj"@]),
        sfx_rule("able"@, "e"@, seq!["v"@], seq!["adj"@]),
        sfx_rule("iable"@, "y"@, seq!["v"@], seq!["adj"@]),
    ] + doubled_family("bdgklmnprstz"@, "able"@, seq!["v"@], seq!["adj"@])
}

/// The whole English descriptor, as `transformer` builds it.
pub open spec fn english_descriptor() -> DescModel {
    DescModel {
        conditions: seq![
            CondModel { name: "v"@, subs: seq!["v_phr"@] },
            CondModel { name: "v_phr"@, subs: Seq::empty() },
            CondModel { name: "n"@, subs: seq!["np"@, "ns"@] },
            CondModel { name: "np"@, subs: Seq::empty() },
            CondModel { name: "ns"@, subs: Seq::empty() },
            CondModel { name: "adj"@, subs: Seq::empty() },
            CondModel { name: "adv"@, subs: Seq::empty() },
        ],
        groups: seq![
            GroupModel { id: "plural"@, rules: plural_family() },
            GroupModel { id: "possessive"@, rules: possessive_family() },
            GroupModel { id: "past"@, rules: past_family() + phrasal_of(past_family()) },
            GroupModel { id: "ing"@, rules: ing_family() + phrasal_of(ing_family()) },
            GroupModel {
                id: "3rd pers. sing. pres"@,
                rules: third_family() + phrasal_of(third_family()),
            },
            GroupModel {
                id: "interposed object"@,
                rules: seq![
                    RuleModel {
                        kind: KindModel::Interposed,
                        conds_in: Seq::empty(),
                        conds_out: seq!["v_phr"@],
                    },
                ],
            },
            GroupModel { id: "archaic"@, rules: seq![sfx_rule("'d"@, "ed"@, seq!["v"@], seq!["v"@])] },
            GroupModel { id: "adverb"@, rules: adverb_family() },
            GroupModel { id: "comparative"@, rules: comparative_family() },
            GroupModel { id: "superlative"@, rules: superlative_family() },
            GroupModel {
                id: "dropped g"@,
                rules: seq![sfx_rule("in'"@, "ing"@, seq!["v"@], seq!["v"@])],
            },
            GroupModel { id: "-y"@, rules: y_family() },
            GroupModel {
                id: "un-"@,
                rules: seq![
                    pfx_rule("un"@, ""@, seq!["adj"@, "adv"@, "v"@], seq!["adj"@, "adv"@, "v"@]),
                ],
            },
            GroupModel {
                id: "going-to future"@,
                rules: seq![pfx_rule("going to "@, ""@, seq!["v"@], seq!["v"@])],
            },
            GroupModel {
                id: "will future"@,
                rules: seq![pfx_rule("will "@, ""@, seq!["v"@], seq!["v"@])],
            },
            GroupModel {
                id: "imperative negative"@,
                rules: seq![
                    pfx_rule("don't "@, ""@, seq!["v"@], seq!["v"@]),
                    pfx_rule("do not "@, ""@, seq!["v"@], seq!["v"@]),
                ],
            },
            GroupModel { id: "-able"@, rules: able_family() },
        ],
    }
}

/// Every rule of the family references defined tags and has a non-empty
/// inflected part.
spec fn family_ok(cm: Seq<CondModel>, rules: Seq<RuleModel>) -> bool {
    forall|y: int|
        0 <= y < rules.len() ==> rule_tags_defined(cm, #[trigger] rules[y]) && kind_wf(
            rules[y].kind,
        )
}

proof fn lemma_family_ok_concat(cm: Seq<CondModel>, a: Seq<RuleModel>, b: Seq<RuleModel>)
    requires
        family_ok(cm, a),
        family_ok(cm, b),
    ensures
        family_ok(cm, a + b),
{
    assert forall|y: int|
        0 <= y < (a + b).len() implies rule_tags_defined(cm, #[trigger] (a + b)[y]) && kind_wf(
        (a + b)[y].kind,
    ) by {
        if y < a.len() {
            assert((a + b)[y] == a[y]);
        } else {
            assert((a + b)[y] == b[y - a.len()]);
        }
    }
}

/// Derives the phrasal-verb variant of each suffix rule of `source_rules`.
fn create_phrasal_verb_inflections_from_suffix_inflections(
    source_rules: &Vec<RuleDefinition>,
) -> (r: Vec<RuleDefinition>)
    ensures
        rules_model(r@) == phrasal_of(rules_model(source_rules@)),
        forall|i: int|
            0 <= i < r@.len() ==> (#[trigger] r@[i]).model().conds_in == seq!["v"@]
                && r@[i].model().conds_out == seq!["v_phr"@],
        (forall|j: int|
            0 <= j < rules_model(source_rules@).len() ==> crate::transformer::kind_wf(
                (#[trigger] rules_model(source_rules@)[j]).kind,
            )) ==> forall|i: int|
            0 <= i < r@.len() ==> crate::transformer::kind_wf((#[trigger] r@[i]).model().kind),
{
    let ghost sm = rules_model(source_rules@);
    let mut r: Vec<RuleDefinition> = Vec::new();
    proof {
        assert(sm.skip(0) =~= sm);
        assert(rules_model(r@) =~= Seq::<RuleModel>::empty());
    }
    let mut k: usize = 0;
    while k < source_rules.len()
        invariant
            k <= source_rules@.len(),
            sm == rules_model(source_rules@),
            sm.len() == source_rules@.len(),
            phrasal_of(sm) == rules_model(r@) + phrasal_of(sm.skip(k as int)),
            forall|i: int|
                0 <= i < r@.len() ==> (#[trigger] r@[i]).model().conds_in == seq!["v"@]
                    && r@[i].model().conds_out == seq!["v_phr"@],
            forall|i: int|
                0 <= i < r@.len() ==> ((forall|j: int|
                    0 <= j < sm.len() ==> crate::transformer::kind_wf((#[trigger] sm[j]).kind))
                    ==> crate::transformer::kind_wf((#[trigger] r@[i]).model().kind)),
        decreases source_rules@.len() - k,
    {
        proof {
            assert(sm[k as int] == source_rules@[k as int].model());
            assert(sm.skip(k as int)[0] == sm[k as int]);
            assert(sm.skip(k as int).skip(1) =~= sm.skip(k + 1 as int));
        }
        match &source_rules[k].kind {
            RuleKind::Suffix { inflected, deinflected } => {
                let rule = RuleDefinition {
                    kind: RuleKind::EnglishPhrasalSuffix {
                        inflected: inflected.clone(),
                        deinflected: deinflected.clone(),
                    },
                    conditions_in: tags1("v"),
                    conditions_out: tags1("v_phr"),
                };
                let ghost r_old = r@;
                proof {
                    assert(rule.model() =~= phrasal_of(sm.skip(k as int))[0]);
                }
                r.push(rule);
                proof {
                    assert(rules_model(r@) =~= rules_model(r_old).push(rule.model()));
                    assert(phrasal_of(sm.skip(k as int)) == seq![rule.model()] + phrasal_of(
                        sm.skip(k + 1 as int),
                    ));
                    assert(rules_model(r_old) + phrasal_of(sm.skip(k as int)) =~= rules_model(r@)
                        + phrasal_of(sm.skip(k + 1 as int)));
                }
            },
            _ => {
                proof {
                    assert(phrasal_of(sm.skip(k as int)) == phrasal_of(sm.skip(k + 1 as int)));
                }
            },
        }
        k = k + 1;
    }
    proof {
        assert(sm.skip(sm.len() as int).len() == 0);
        assert(phrasal_of(sm) =~= rules_model(r@));
    }
    r
}

/// Builds the English descriptor: closed-class regular inflection families,
/// their doubled-final-consonant variants, phrasal-verb variants of the
/// suffix families, and periphrastic prefixes.
#[verifier::rlimit(100)]
pub fn transformer() -> (r: Result<LanguageTransformer, TransformError>)
    ensures
        r is Ok,
        r matches Ok(t) ==> t@ == english_descriptor(),
        r matches Ok(t) ==> desc_wf(t@),
{
    let mut conditions: Vec<(String, ConditionDefinition)> = Vec::new();
    conditions.push(
        ("v".to_owned(), ConditionDefinition { sub_conditions: Some(tags1("v_phr")) }),
    );
    conditions.push(("v_phr".to_owned(), ConditionDefinition { sub_conditions: None }));
    conditions.push(
        ("n".to_owned(), ConditionDefinition { sub_conditions: Some(tags2("np", "ns")) }),
    );
    conditions.push(("np".to_owned(), ConditionDefinition { sub_conditions: None }));
    conditions.push(("ns".to_owned(), ConditionDefinition { sub_conditions: None }));
    conditions.push(("adj".to_owned(), ConditionDefinition { sub_conditions: None }));
    conditions.push(("adv".to_owned(), ConditionDefinition { sub_conditions: None }));
    let ghost cm = conds_model_seq(conditions@);
    proof {
        assert(cm.len() == 7);
        assert(cm[0].name == "v"@ && cm[0].subs =~= seq!["v_phr"@]);
        assert(cm[1].name == "v_phr"@ && cm[1].subs =~= Seq::<Seq<char>>::empty());
        assert(cm[2].name == "n"@ && cm[2].subs =~= seq!["np"@, "ns"@]);
        assert(cm[3].name == "np"@ && cm[3].subs =~= Seq::<Seq<char>>::empty());
        assert(cm[4].name == "ns"@ && cm[4].subs =~= Seq::<Seq<char>>::empty());
        assert(cm[5].name == "adj"@ && cm[5].subs =~= Seq::<Seq<char>>::empty());
        assert(cm[6].name == "adv"@ && cm[6].subs =~= Seq::<Seq<char>>::empty());
        reveal_strlit("v");
        reveal_strlit("v_phr");
        reveal_strlit("n");
        reveal_strlit("np");
        reveal_strlit("ns");
        reveal_strlit("adj");
        reveal_strlit("adv");
        reveal_strlit("ed");
        reveal_strlit("e");
        reveal_strlit("ied");
        reveal_strlit("y");
        reveal_strlit("cked");
        reveal_strlit("c");
        reveal_strlit("laid");
        reveal_strlit("lay");
        reveal_strlit("paid");
        reveal_strlit("pay");
        reveal_strlit("said");
        reveal_strlit("say");
        reveal_strlit("ing");
        reveal_strlit("ying");
        reveal_strlit("ie");
        reveal_strlit("cking");
        reveal_strlit("s");
        reveal_strlit("es");
        reveal_strlit("ies");
        reveal_strlit("ves");
        reveal_strlit("fe");
        reveal_strlit("f");
        reveal_strlit("'s");
        reveal_strlit("s'");
        reveal_strlit("'d");
        reveal_strlit("ly");
        reveal_strlit("ily");
        reveal_strlit("le");
        reveal_strlit("er");
        reveal_strlit("ier");
        reveal_strlit("est");
        reveal_strlit("iest");
        reveal_strlit("in'");
        reveal_strlit("un");
        reveal_strlit("going to ");
        reveal_strlit("will ");
        reveal_strlit("don't ");
        reveal_strlit("do not ");
        reveal_strlit("able");
        reveal_strlit("iable");
        assert(("v"@).len() == 1 && ("v_phr"@).len() == 5 && ("n"@).len() == 1 && ("np"@).len()
            == 2 && ("ns"@).len() == 2 && ("adj"@).len() == 3 && ("adv"@).len() == 3);
        assert(("v"@)[0] == 'v' && ("n"@)[0] == 'n');
        assert(("np"@)[1] == 'p' && ("ns"@)[1] == 's');
        assert(("adj"@)[2] == 'j' && ("adv"@)[2] == 'v');
        assert(("v"@) != ("n"@) && ("np"@) != ("ns"@) && ("adj"@) != ("adv"@));
        assert forall|i: int, j: int| 0 <= i < j < cm.len() implies cm[i].name != cm[j].name by {
            assert(cm[0].name != cm[1].name);
            assert(cm[0].name != cm[2].name);
            assert(cm[0].name != cm[3].name);
            assert(cm[0].name != cm[4].name);
            assert(cm[0].name != cm[5].name);
            assert(cm[0].name != cm[6].name);
            assert(cm[1].name != cm[2].name);
            assert(cm[1].name != cm[3].name);
            assert(cm[1].name != cm[4].name);
            assert(cm[1].name != cm[5].name);
            assert(cm[1].name != cm[6].name);
            assert(cm[2].name != cm[3].name);
            assert(cm[2].name != cm[4].name);
            assert(cm[2].name != cm[5].name);
            assert(cm[2].name != cm[6].name);
            assert(cm[3].name != cm[4].name);
            assert(cm[3].name != cm[5].name);
            assert(cm[3].name != cm[6].name);
            assert(cm[4].name != cm[5].name);
            assert(cm[4].name != cm[6].name);
            assert(cm[5].name != cm[6].name);
        }
        assert(unique_names(cm));
        assert(tag_defined(cm, "v"@) && tag_defined(cm, "v_phr"@) && tag_defined(cm, "n"@)
            && tag_defined(cm, "np"@) && tag_defined(cm, "ns"@) && tag_defined(cm, "adj"@)
            && tag_defined(cm, "adv"@));
        assert(conds_subs_defined(cm));
        assert(tags_defined(cm, seq!["v"@]) && tags_defined(cm, seq!["v_phr"@]) && tags_defined(
            cm,
            seq!["n"@],
        ) && tags_defined(cm, seq!["np"@]) && tags_defined(cm, seq!["ns"@]) && tags_defined(
            cm,
            seq!["adj"@],
        ) && tags_defined(cm, seq!["adv"@]) && tags_defined(cm, seq!["n"@, "v"@]) && tags_defined(
            cm,
            seq!["adj"@, "adv"@, "v"@],
        ) && tags_defined(cm, Seq::<Seq<char>>::empty()));
    }

    let mut past_suffix_inflections: Vec<RuleDefinition> = Vec::new();
    past_suffix_inflections.push(suffix_rule("ed", "", tags1("v"), tags1("v")));
    past_suffix_inflections.push(suffix_rule("ed", "e", tags1("v"), tags1("v")));
    past_suffix_inflections.push(suffix_rule("ied", "y", tags1("v"), tags1("v")));
    past_suffix_inflections.push(suffix_rule("cked", "c", tags1("v"), tags1("v")));
    let mut doubled_past = doubled_consonant_inflection(
        "bdgklmnprstz",
        "ed",
        &tags1("v"),
        &tags1("v"),
    );
    past_suffix_inflections.append(&mut doubled_past);
    past_suffix_inflections.push(suffix_rule("laid", "lay", tags1("v"), tags1("v")));
    past_suffix_inflections.push(suffix_rule("paid", "pay", tags1("v"), tags1("v")));
    past_suffix_inflections.push(suffix_rule("said", "say", tags1("v"), tags1("v")));
    let ghost past_base = rules_model(past_suffix_inflections@);
    proof {
        assert(past_base =~= past_family());
        assert(family_ok(cm, past_base));
    }

    let mut ing_suffix_inflections: Vec<RuleDefinition> = Vec::new();
    ing_suffix_inflections.push(suffix_rule("ing", "", tags1("v"), tags1("v")));
    ing_suffix_inflections.push(suffix_rule("ing", "e", tags1("v"), tags1("v")));
    ing_suffix_inflections.push(suffix_rule("ying", "ie", tags1("v"), tags1("v")));
    ing_suffix_inflections.push(suffix_rule("cking", "c", tags1("v"), tags1("v")));
    let mut doubled_ing = doubled_consonant_inflection(
        "bdgklmnprstz",
        "ing",
        &tags1("v"),
        &tags1("v"),
    );
    ing_suffix_inflections.append(&mut doubled_ing);
    let ghost ing_base = rules_model(ing_suffix_inflections@);
    proof {
        assert(ing_base =~= ing_family());
        assert(family_ok(cm, ing_base));
    }

    let mut third_person_sg_present_suffix_inflections: Vec<RuleDefinition> = Vec::new();
    third_person_sg_present_suffix_inflections.push(suffix_rule("s", "", tags1("v"), tags1("v")));
    third_person_sg_present_suffix_inflections.push(suffix_rule("es", "", tags1("v"), tags1("v")));
    third_person_sg_present_suffix_inflections.push(suffix_rule("ies", "y", tags1("v"), tags1("v")));
    let ghost third_base = rules_model(third_person_sg_present_suffix_inflections@);
    proof {
        assert(third_base =~= third_family());
        assert(family_ok(cm, third_base));
    }

    let mut transforms: Vec<TransformDefinition> = Vec::new();

    let mut plural_rules: Vec<RuleDefinition> = Vec::new();
    plural_rules.push(suffix_rule("s", "", tags1("np"), tags1("ns")));
    plural_rules.push(suffix_rule("es", "", tags1("np"), tags1("ns")));
    plural_rules.push(suffix_rule("ies", "y", tags1("np"), tags1("ns")));
    plural_rules.push(suffix_rule("ves", "fe", tags1("np"), tags1("ns")));
    plural_rules.push(suffix_rule("ves", "f", tags1("np"), tags1("ns")));
    proof {
        assert(rules_model(plural_rules@) =~= plural_family());
        assert(family_ok(cm, rules_model(plural_rules@)));
    }
    transforms.push(TransformDefinition { id: "plural".to_owned(), rules: plural_rules });

    let mut possessive_rules: Vec<RuleDefinition> = Vec::new();
    possessive_rules.push(suffix_rule("'s", "", tags1("n"), tags1("n")));
    possessive_rules.push(suffix_rule("s'", "s", tags1("n"), tags1("n")));
    proof {
        assert(rules_model(possessive_rules@) =~= possessive_family());
        assert(family_ok(cm, rules_model(possessive_rules@)));
    }
    transforms.push(TransformDefinition { id: "possessive".to_owned(), rules: possessive_rules });

    let mut past_phrasal = create_phrasal_verb_inflections_from_suffix_inflections(
        &past_suffix_inflections,
    );
    let ghost past_phr = rules_model(past_phrasal@);
    proof {
        assert forall|y: int|
            0 <= y < past_phr.len() implies rule_tags_defined(cm, #[trigger] past_phr[y])
            && kind_wf(past_phr[y].kind) by {
            assert(past_phr[y] == past_phrasal@[y].model());
            assert(forall|j: int|
                0 <= j < past_base.len() ==> kind_wf((#[trigger] past_base[j]).kind));
        }
    }
    let mut past_rules = past_suffix_inflections;
    past_rules.append(&mut past_phrasal);
    proof {
        assert(rules_model(past_rules@) =~= past_base + past_phr);
        assert(past_phr == phrasal_of(past_family()));
        assert(rules_model(past_rules@) =~= past_family() + phrasal_of(past_family()));
        lemma_family_ok_concat(cm, past_base, past_phr);
    }
    let ghost past_all = rules_model(past_rules@);
    transforms.push(TransformDefinition { id: "past".to_owned(), rules: past_rules });

    let mut ing_phrasal = create_phrasal_verb_inflections_from_suffix_inflections(
        &ing_suffix_inflections,
    );
    let ghost ing_phr = rules_model(ing_phrasal@);
    proof {
        assert forall|y: int|
            0 <= y < ing_phr.len() implies rule_tags_defined(cm, #[trigger] ing_phr[y]) && kind_wf(
            ing_phr[y].kind,
        ) by {
            assert(ing_phr[y] == ing_phrasal@[y].model());
            assert(forall|j: int|
                0 <= j < ing_base.len() ==> kind_wf((#[trigger] ing_base[j]).kind));
        }
    }
    let mut ing_rules = ing_suffix_inflections;
    ing_rules.append(&mut ing_phrasal);
    proof {
        assert(rules_model(ing_rules@) =~= ing_base + ing_phr);
        assert(ing_phr == phrasal_of(ing_family()));
        assert(rules_model(ing_rules@) =~= ing_family() + phrasal_of(ing_family()));
        lemma_family_ok_concat(cm, ing_base, ing_phr);
    }
    let ghost ing_all = rules_model(ing_rules@);
    transforms.push(TransformDefinition { id: "ing".to_owned(), rules: ing_rules });

    let mut third_phrasal = create_phrasal_verb_inflections_from_suffix_inflections(
        &third_person_sg_present_suffix_inflections,
    );
    let ghost third_phr = rules_model(third_phrasal@);
    proof {
        assert forall|y: int|
            0 <= y < third_phr.len() implies rule_tags_defined(cm, #[trigger] third_phr[y])
            && kind_wf(third_phr[y].kind) by {
            assert(third_phr[y] == third_phrasal@[y].model());
            assert(forall|j: int|
                0 <= j < third_base.len() ==> kind_wf((#[trigger] third_base[j]).kind));
        }
    }
    let mut third_rules = third_person_sg_present_suffix_inflections;
    third_rules.append(&mut third_phrasal);
    proof {
        assert(rules_model(third_rules@) =~= third_base + third_phr);
        assert(third_phr == phrasal_of(third_family()));
        assert(rules_model(third_rules@) =~= third_family() + phrasal_of(third_family()));
        lemma_family_ok_concat(cm, third_base, third_phr);
    }
    let ghost third_all = rules_model(third_rules@);
    transforms.push(
        TransformDefinition { id: "3rd pers. sing. pres".to_owned(), rules: third_rules },
    );

    let mut interposed_rules: Vec<RuleDefinition> = Vec::new();
    interposed_rules.push(
        RuleDefinition {
            kind: RuleKind::EnglishPhrasalInterposedObject,
            conditions_in: Vec::new(),
            conditions_out: tags1("v_phr"),
        },
    );
    proof {
        assert(interposed_rules@[0].model().conds_in =~= Seq::<Seq<char>>::empty());
        assert(rules_model(interposed_rules@) =~= seq![
            RuleModel {
                kind: KindModel::Interposed,
                conds_in: Seq::empty(),
                conds_out: seq!["v_phr"@],
            },
        ]);
        assert(family_ok(cm, rules_model(interposed_rules@)));
    }
    transforms.push(
        TransformDefinition { id: "interposed object".to_owned(), rules: interposed_rules },
    );

    let mut archaic_rules: Vec<RuleDefinition> = Vec::new();
    archaic_rules.push(suffix_rule("'d", "ed", tags1("v"), tags1("v")));
    proof {
        assert(rules_model(archaic_rules@) =~= seq![sfx_rule("'d"@, "ed"@, seq!["v"@], seq!["v"@])]);
        assert(family_ok(cm, rules_model(archaic_rules@)));
    }
    transforms.push(TransformDefinition { id: "archaic".to_owned(), rules: archaic_rules });

    let mut adverb_rules: Vec<RuleDefinition> = Vec::new();
    adverb_rules.push(suffix_rule("ly", "", tags1("adv"), tags1("adj")));
    adverb_rules.push(suffix_rule("ily", "y", tags1("adv"), tags1("adj")));
    adverb_rules.push(suffix_rule("ly", "le", tags1("adv"), tags1("adj")));
    proof {
        assert(rules_model(adverb_rules@) =~= adverb_family());
        assert(family_ok(cm, rules_model(adverb_rules@)));
    }
    transforms.push(TransformDefinition { id: "adverb".to_owned(), rules: adverb_rules });

    let mut comparative_rules: Vec<RuleDefinition> = Vec::new();
    comparative_rules.push(suffix_rule("er", "", tags1("adj"), tags1("adj")));
    comparative_rules.push(suffix_rule("er", "e", tags1("adj"), tags1("adj")));
    comparative_rules.push(suffix_rule("ier", "y", tags1("adj"), tags1("adj")));
    let mut doubled_comp = doubled_consonant_inflection("bdgmnt", "er", &tags1("adj"), &tags1("adj"));
    comparative_rules.append(&mut doubled_comp);
    proof {
        assert(rules_model(comparative_rules@) =~= comparative_family());
        assert(family_ok(cm, rules_model(comparative_rules@)));
    }
    transforms.push(TransformDefinition { id: "comparative".to_owned(), rules: comparative_rules });

    let mut superlative_rules: Vec<RuleDefinition> = Vec::new();
    superlative_rules.push(suffix_rule("est", "", tags1("adj"), tags1("adj")));
    superlative_rules.push(suffix_rule("est", "e", tags1("adj"), tags1("adj")));
    superlative_rules.push(suffix_rule("iest", "y", tags1("adj"), tags1("adj")));
    let mut doubled_sup = doubled_consonant_inflection("bdgmnt", "est", &tags1("adj"), &tags1("adj"));
    superlative_rules.append(&mut doubled_sup);
    proof {
        assert(rules_model(superlative_rules@) =~= superlative_family());
        assert(family_ok(cm, rules_model(superlative_rules@)));
    }
    transforms.push(TransformDefinition { id: "superlative".to_owned(), rules: superlative_rules });

    let mut dropped_g_rules: Vec<RuleDefinition> = Vec::new();
    dropped_g_rules.push(suffix_rule("in'", "ing", tags1("v"), tags1("v")));
    proof {
        assert(rules_model(dropped_g_rules@) =~= seq![sfx_rule("in'"@, "ing"@, seq!["v"@], seq!["v"@])]);
        assert(family_ok(cm, rules_model(dropped_g_rules@)));
    }
    transforms.push(TransformDefinition { id: "dropped g".to_owned(), rules: dropped_g_rules });

    let mut y_rules: Vec<RuleDefinition> = Vec::new();
    y_rules.push(suffix_rule("y", "", tags1("adj"), tags2("n", "v")));
    y_rules.push(suffix_rule("y", "e", tags1("adj"), tags2("n", "v")));
    let empty_tags: Vec<String> = Vec::new();
    let mut doubled_y = doubled_consonant_inflection("glmnprst", "y", &empty_tags, &tags2("n", "v"));
    y_rules.append(&mut doubled_y);
    proof {
        assert(rules_model(y_rules@) =~= y_family());
        assert(family_ok(cm, rules_model(y_rules@)));
    }
    transforms.push(TransformDefinition { id: "-y".to_owned(), rules: y_rules });

    let mut un_rules: Vec<RuleDefinition> = Vec::new();
    un_rules.push(prefix_rule("un", "", tags3("adj", "adv", "v"), tags3("adj", "adv", "v")));
    proof {
        assert(rules_model(un_rules@) =~= seq![pfx_rule("un"@, ""@, seq!["adj"@, "adv"@, "v"@], seq!["adj"@, "adv"@, "v"@])]);
        assert(family_ok(cm, rules_model(un_rules@)));
    }
    transforms.push(TransformDefinition { id: "un-".to_owned(), rules: un_rules });

    let mut going_to_rules: Vec<RuleDefinition> = Vec::new();
    going_to_rules.push(prefix_rule("going to ", "", tags1("v"), tags1("v")));
    proof {
        assert(rules_model(going_to_rules@) =~= seq![pfx_rule("going to "@, ""@, seq!["v"@], seq!["v"@])]);
        assert(family_ok(cm, rules_model(going_to_rules@)));
    }
    transforms.push(TransformDefinition { id: "going-to future".to_owned(), rules: going_to_rules });

    let mut will_rules: Vec<RuleDefinition> = Vec::new();
    will_rules.push(prefix_rule("will ", "", tags1("v"), tags1("v")));
    proof {
        assert(rules_model(will_rules@) =~= seq![pfx_rule("will "@, ""@, seq!["v"@], seq!["v"@])]);
        assert(family_ok(cm, rules_model(will_rules@)));
    }
    transforms.push(TransformDefinition { id: "will future".to_owned(), rules: will_rules });

    let mut imperative_negative_rules: Vec<RuleDefinition> = Vec::new();
    imperative_negative_rules.push(prefix_rule("don't ", "", tags1("v"), tags1("v")));
    imperative_negative_rules.push(prefix_rule("do not ", "", tags1("v"), tags1("v")));
    proof {
        assert(rules_model(imperative_negative_rules@) =~= seq![pfx_rule("don't "@, ""@, seq!["v"@], seq!["v"@]), pfx_rule("do not "@, ""@, seq!["v"@], seq!["v"@])]);
        assert(family_ok(cm, rules_model(imperative_negative_rules@)));
    }
    transforms.push(
        TransformDefinition {
            id: "imperative negative".to_owned(),
            rules: imperative_negative_rules,
        },
    );

    let mut able_rules: Vec<RuleDefinition> = Vec::new();
    able_rules.push(suffix_rule("able", "", tags1("v"), tags1("adj")));
    able_rules.push(suffix_rule("able", "e", tags1("v"), tags1("adj")));
    able_rules.push(suffix_rule("iable", "y", tags1("v"), tags1("adj")));
    let mut doubled_able = doubled_consonant_inflection(
        "bdgklmnprstz",
        "able",
        &tags1("v"),
        &tags1("adj"),
    );
    able_rules.append(&mut doubled_able);
    proof {
        assert(rules_model(able_rules@) =~= able_family());
        assert(family_ok(cm, rules_model(able_rules@)));
    }
    transforms.push(TransformDefinition { id: "-able".to_owned(), rules: able_rules });

    let descriptor = Descriptor { conditions, transforms };
    proof {
        let m = descriptor.model();
        assert(m.conditions =~= cm);
        assert(descriptor.transforms@.len() == 17);
        assert(m.groups.len() == descriptor.transforms@.len());
        assert forall|g: int| 0 <= g < m.groups.len() implies family_ok(
            cm,
            (#[trigger] m.groups[g]).rules,
        ) by {
            assert(m.groups[g] == descriptor.transforms@[g].model());
        }
        assert forall|g: int, rr: int|
            0 <= g < m.groups.len() && 0 <= rr < m.groups[g].rules.len() implies rule_tags_defined(
            m.conditions,
            #[trigger] m.groups[g].rules[rr],
        ) && kind_wf(m.groups[g].rules[rr].kind) by {
            assert(family_ok(cm, m.groups[g].rules));
        }
        assert(desc_tags_defined(m));
        assert(desc_affixes_nonempty(m));
        assert(desc_wf(m));
        assert(m.conditions =~= english_descriptor().conditions);
        assert forall|g: int|
            0 <= g < m.groups.len() implies m.groups[g] =~= english_descriptor().groups[g] by {
            assert(m.groups[g] == descriptor.transforms@[g].model());
        }
        assert(m.groups =~= english_descriptor().groups);
        assert(m =~= english_descriptor());
    }
    LanguageTransformer::from_descriptor(descriptor)
}


/// Affix correctness: a search over the English descriptor on "studied"
/// includes the candidate "studied" with its "ied" suffix turned into "y".
pub proof fn lemma_english_studied(rs: Seq<CandModel>)
    requires
        engine_post(english_descriptor(), "studied"@, rs),
    ensures
        exists|k: int| 0 <= k < rs.len() && rs[k].text == "study"@,
{
    let d = english_descriptor();
    reveal_strlit("studied");
    reveal_strlit("study");
    reveal_strlit("ied");
    reveal_strlit("y");
    let rule = d.groups[2].rules[2];
    assert(rule == sfx_rule("ied"@, "y"@, seq!["v"@], seq!["v"@]));
    assert(rs[0] == seed_cand("studied"@));
    assert(cond_sat(d.conditions, rs[0].conds, rule.conds_in));
    assert("studied"@.skip(4) =~= "ied"@);
    assert(suffix_of("studied"@, "ied"@));
    assert(kind_matches(rule.kind, "studied"@));
    assert(rule_applies(d.conditions, rule, rs[0].text, rs[0].conds));
    assert(closed_at(d, rs, 0));
    let sc = step_cand(d.groups[2].id, rule, rs[0]);
    assert(key_present(rs, sc));
    assert(apply_kind(rule.kind, "studied"@) =~= "study"@) by {
        assert("studied"@.take(4) + "y"@ =~= "study"@);
    }
    let w = choose|k: int| 0 <= k < rs.len() && rs[k].text == sc.text && rs[k].conds == sc.conds;
    assert(rs[w].text == "study"@);
}

/// Affix correctness: a search over the English descriptor on "stopped"
/// includes "stop", through the generated doubled-final-consonant rule.
pub proof fn lemma_english_stopped(rs: Seq<CandModel>)
    requires
        engine_post(english_descriptor(), "stopped"@, rs),
    ensures
        exists|k: int| 0 <= k < rs.len() && rs[k].text == "stop"@,
{
    let d = english_descriptor();
    reveal_strlit("stopped");
    reveal_strlit("stop");
    reveal_strlit("ed");
    reveal_strlit("bdgklmnprstz");
    let cs = "bdgklmnprstz"@;
    assert(cs.len() == 12 && cs[7] == 'p');
    let rule = d.groups[2].rules[11];
    assert(rule == sfx_rule(seq!['p', 'p'] + "ed"@, seq!['p'], seq!["v"@], seq!["v"@])) by {
        assert(past_family()[11] == doubled_family(cs, "ed"@, seq!["v"@], seq!["v"@])[7]);
    }
    assert(rs[0] == seed_cand("stopped"@));
    assert(cond_sat(d.conditions, rs[0].conds, rule.conds_in));
    assert("stopped"@.skip(3) =~= seq!['p', 'p'] + "ed"@);
    assert(suffix_of("stopped"@, seq!['p', 'p'] + "ed"@));
    assert(kind_matches(rule.kind, "stopped"@));
    assert(rule_applies(d.conditions, rule, rs[0].text, rs[0].conds));
    assert(closed_at(d, rs, 0));
    let sc = step_cand(d.groups[2].id, rule, rs[0]);
    assert(key_present(rs, sc));
    assert(apply_kind(rule.kind, "stopped"@) =~= "stop"@) by {
        assert("stopped"@.take(3) + seq!['p'] =~= "stop"@);
    }
    let w = choose|k: int| 0 <= k < rs.len() && rs[k].text == sc.text && rs[k].conds == sc.conds;
    assert(rs[w].text == "stop"@);
}

/// Affix correctness: a search over the English descriptor on "cats"
/// includes "cat"; the untagged input is eligible for the plural rule
/// despite its required noun tag.
pub proof fn lemma_english_cats(rs: Seq<CandModel>)
    requires
        engine_post(english_descriptor(), "cats"@, rs),
    ensures
        exists|k: int| 0 <= k < rs.len() && rs[k].text == "cat"@,
{
    let d = english_descriptor();
    reveal_strlit("cats");
    reveal_strlit("cat");
    reveal_strlit("s");
    reveal_strlit("");
    let rule = d.groups[0].rules[0];
    assert(rule == sfx_rule("s"@, ""@, seq!["np"@], seq!["ns"@]));
    assert(rs[0] == seed_cand("cats"@));
    assert(cond_sat(d.conditions, rs[0].conds, rule.conds_in));
    assert("cats"@.skip(3) =~= "s"@);
    assert(suffix_of("cats"@, "s"@));
    assert(kind_matches(rule.kind, "cats"@));
    assert(rule_applies(d.conditions, rule, rs[0].text, rs[0].conds));
    assert(closed_at(d, rs, 0));
    let sc = step_cand(d.groups[0].id, rule, rs[0]);
    assert(key_present(rs, sc));
    assert(apply_kind(rule.kind, "cats"@) =~= "cat"@) by {
        assert("cats"@.take(3) + ""@ =~= "cat"@);
    }
    let w = choose|k: int| 0 <= k < rs.len() && rs[k].text == sc.text && rs[k].conds == sc.conds;
    assert(rs[w].text == "cat"@);
}

/// Prefix correctness: a search over the English descriptor on
/// "will study" includes "study", through the periphrastic-future rule.
pub proof fn lemma_english_will_study(rs: Seq<CandModel>)
    requires
        engine_post(english_descriptor(), "will study"@, rs),
    ensures
        exists|k: int| 0 <= k < rs.len() && rs[k].text == "study"@,
{
    let d = english_descriptor();
    reveal_strlit("will study");
    reveal_strlit("will ");
    reveal_strlit("study");
    reveal_strlit("");
    let rule = d.groups[14].rules[0];
    assert(rule == pfx_rule("will "@, ""@, seq!["v"@], seq!["v"@]));
    assert(rs[0] == seed_cand("will study"@));
    assert(cond_sat(d.conditions, rs[0].conds, rule.conds_in));
    assert("will study"@.take(5) =~= "will "@);
    assert(prefix_of("will study"@, "will "@));
    assert(kind_matches(rule.kind, "will study"@));
    assert(rule_applies(d.conditions, rule, rs[0].text, rs[0].conds));
    assert(closed_at(d, rs, 0));
    let sc = step_cand(d.groups[14].id, rule, rs[0]);
    assert(key_present(rs, sc));
    assert(apply_kind(rule.kind, "will study"@) =~= "study"@) by {
        assert(""@ + "will study"@.skip(5) =~= "study"@);
    }
    let w = choose|k: int| 0 <= k < rs.len() && rs[k].text == sc.text && rs[k].conds == sc.conds;
    assert(rs[w].text == "study"@);
}

/// Prefix correctness: a search over the English descriptor on "don't go"
/// includes "go", through the negated-imperative rule.
pub proof fn lemma_english_dont_go(rs: Seq<CandModel>)
    requires
        engine_post(english_descriptor(), "don't go"@, rs),
    ensures
        exists|k: int| 0 <= k < rs.len() && rs[k].text == "go"@,
{
    let d = english_descriptor();
    reveal_strlit("don't go");
    reveal_strlit("don't ");
    reveal_strlit("go");
    reveal_strlit("");
    let rule = d.groups[15].rules[0];
    assert(rule == pfx_rule("don't "@, ""@, seq!["v"@], seq!["v"@]));
    assert(rs[0] == seed_cand("don't go"@));
    assert(cond_sat(d.conditions, rs[0].conds, rule.conds_in));
    assert("don't go"@.take(6) =~= "don't "@);
    assert(prefix_of("don't go"@, "don't "@));
    assert(kind_matches(rule.kind, "don't go"@));
    assert(rule_applies(d.conditions, rule, rs[0].text, rs[0].conds));
    assert(closed_at(d, rs, 0));
    let sc = step_cand(d.groups[15].id, rule, rs[0]);
    assert(key_present(rs, sc));
    assert(apply_kind(rule.kind, "don't go"@) =~= "go"@) by {
        assert(""@ + "don't go"@.skip(6) =~= "go"@);
    }
    let w = choose|k: int| 0 <= k < rs.len() && rs[k].text == sc.text && rs[k].conds == sc.conds;
    assert(rs[w].text == "go"@);
}

} // verus!
