//! Rendering method and coordinate-precision decisions.
use vstd::prelude::*;
use vstd::string::*;

verus! {

#[derive(Debug, Clone, Copy, PartialEq, Eq, Structural)]
pub enum PrecisionTechnique {
    Float,
    Fixed,
}

#[derive(Debug, Clone, Copy, PartialEq, Eq, Structural)]
pub struct PrecisionSpec {
    pub technique: PrecisionTechnique,
    pub level: usize,
}

#[derive(Debug, Clone, Copy, PartialEq, Eq, Structural)]
pub enum RenderMethod {
    Direct { precision: PrecisionSpec },
    Perturbation { seed: PrecisionSpec, delta: PrecisionSpec },
}

#[derive(Debug, Clone, Copy, PartialEq, Eq, Structural)]
pub struct PrecisionRenderPlan {
    method: RenderMethod,
    perturbation_fallback: bool,
}

/// Chooses a render plan from the renderer's precision settings.
pub struct PrecisionDecisionManager;

/// The renderer settings that select a render plan.
pub struct PrecisionSettings {
    pub rendering_method: String,
    pub precision_technique: String,
    pub precision_level: usize,
    pub perturbation_fallback: bool,
}

/// A float precision always has level 1; a fixed precision keeps its level.
pub open spec fn normalize(spec: PrecisionSpec) -> PrecisionSpec {
    match spec.technique {
        PrecisionTechnique::Float => PrecisionSpec { technique: PrecisionTechnique::Float, level: 1 },
        PrecisionTechnique::Fixed => spec,
    }
}

/// The message that rejects a level of zero.
pub open spec fn level_error() -> Seq<char> {
    "precision level must be at least 1"@
}

/// What `validate_and_normalize` returns.
pub open spec fn checked_spec(spec: PrecisionSpec) -> Result<PrecisionSpec, Seq<char>> {
    if spec.level == 0 {
        Err(level_error())
    } else {
        Ok(normalize(spec))
    }
}

/// Whether every precision of a method has a level of at least 1.
pub open spec fn method_is_valid(method: RenderMethod) -> bool {
    match method {
        RenderMethod::Direct { precision } => precision.level > 0,
        RenderMethod::Perturbation { seed, delta } => seed.level > 0 && delta.level > 0,
    }
}

/// A method with each of its precisions normalized.
pub open spec fn normalize_method(method: RenderMethod) -> RenderMethod {
    match method {
        RenderMethod::Direct { precision } => RenderMethod::Direct {
            precision: normalize(precision),
        },
        RenderMethod::Perturbation { seed, delta } => RenderMethod::Perturbation {
            seed: normalize(seed),
            delta: normalize(delta),
        },
    }
}

/// Normalizing twice changes nothing more than normalizing once.
pub proof fn lemma_normalize_idempotent(spec: PrecisionSpec)
    ensures
        normalize(normalize(spec)) == normalize(spec),
{
}

/// What `validate_and_normalize` accepts has a level of at least 1 and is
/// already normalized, so validating it again gives it back unchanged.
pub proof fn lemma_checked_is_stable(spec: PrecisionSpec)
    ensures
        checked_spec(spec) matches Ok(checked) ==> checked.level > 0 && normalize(checked)
            == checked && checked_spec(checked) == Ok::<PrecisionSpec, Seq<char>>(checked),
{
}

/// A plan made from a valid method can be made again from its own method and
/// yields the same method: normalization is idempotent across plans.
pub proof fn lemma_plan_method_is_stable(method: RenderMethod)
    requires
        method_is_valid(method),
    ensures
        method_is_valid(normalize_method(method)),
        normalize_method(normalize_method(method)) == normalize_method(method),
{
}

impl PrecisionSpec {
    pub fn float(level: usize) -> (spec: Self)
        ensures
            spec == (PrecisionSpec { technique: PrecisionTechnique::Float, level }),
    {
        Self { technique: PrecisionTechnique::Float, level }
    }

    pub fn fixed(level: usize) -> (spec: Self)
        ensures
            spec == (PrecisionSpec { technique: PrecisionTechnique::Fixed, level }),
    {
        Self { technique: PrecisionTechnique::Fixed, level }
    }

    /// Rejects a level of zero.
    pub fn validate(self) -> (result: Result<Self, &'static str>)
        ensures
            self.level == 0 ==> result is Err && result->Err_0@ == level_error(),
            self.level != 0 ==> result == Ok::<Self, &'static str>(self),
    {
        if self.level == 0 {
            Err("precision level must be at least 1")
        } else {
            Ok(self)
        }
    }

    /// Float precision ignores the level and is stored as level 1.
    pub fn normalized(self) -> (spec: Self)
        ensures
            spec == normalize(self),
    {
        match self.technique {
            PrecisionTechnique::Float => Self::float(1),
            PrecisionTechnique::Fixed => self,
        }
    }

    /// `validate`, then `normalized`.
    pub fn validate_and_normalize(self) -> (result: Result<Self, &'static str>)
        ensures
            match checked_spec(self) {
                Ok(spec) => result == Ok::<Self, &'static str>(spec),
                Err(message) => result is Err && result->Err_0@ == message,
            },
    {
        match self.validate() {
            Ok(_) => Ok(self.normalized()),
            Err(message) => Err(message),
        }
    }
}

impl PrecisionRenderPlan {
    /// The render method of a plan.
    pub closed spec fn method_spec(self) -> RenderMethod {
        self.method
    }

    /// Whether a plan may fall back to perturbation.
    pub closed spec fn fallback_spec(self) -> bool {
        self.perturbation_fallback
    }

    /// A direct plan, without fallback, exactly as given.
    pub fn direct(precision: PrecisionSpec) -> (plan: Self)
        ensures
            plan.method_spec() == (RenderMethod::Direct { precision }),
            !plan.fallback_spec(),
    {
        Self { method: RenderMethod::Direct { precision }, perturbation_fallback: false }
    }

    /// A perturbation plan, without fallback, exactly as given.
    pub fn perturbation(seed: PrecisionSpec, delta: PrecisionSpec) -> (plan: Self)
        ensures
            plan.method_spec() == (RenderMethod::Perturbation { seed, delta }),
            !plan.fallback_spec(),
    {
        Self { method: RenderMethod::Perturbation { seed, delta }, perturbation_fallback: false }
    }

    /// Validates and normalizes every precision of a method.
    pub fn new(method: RenderMethod) -> (result: Result<Self, &'static str>)
        ensures
            method_is_valid(method) ==> result is Ok && result->Ok_0.method_spec()
                == normalize_method(method) && !result->Ok_0.fallback_spec(),
            !method_is_valid(method) ==> result is Err && result->Err_0@ == level_error(),
    {
        let method = match method {
            RenderMethod::Direct { precision } => {
                precision.validate_and_normalize()?;
                RenderMethod::Direct { precision: precision.normalized() }
            },
            RenderMethod::Perturbation { seed, delta } => {
                seed.validate_and_normalize()?;
                delta.validate_and_normalize()?;
                RenderMethod::Perturbation { seed: seed.normalized(), delta: delta.normalized() }
            },
        };
        Ok(Self { method, perturbation_fallback: false })
    }

    pub fn method(self) -> (method: RenderMethod)
        ensures
            method == self.method_spec(),
    {
        self.method
    }

    pub fn with_perturbation_fallback(self, enabled: bool) -> (plan: Self)
        ensures
            plan.method_spec() == self.method_spec(),
            plan.fallback_spec() == enabled,
    {
        let mut plan = self;
        plan.perturbation_fallback = enabled;
        plan
    }

    pub fn perturbation_fallback(self) -> (enabled: bool)
        ensures
            enabled == self.fallback_spec(),
    {
        self.perturbation_fallback
    }
}

impl Default for PrecisionRenderPlan {
    fn default() -> (plan: Self)
        ensures
            plan.method_spec() == (RenderMethod::Direct {
                precision: PrecisionSpec { technique: PrecisionTechnique::Float, level: 1 },
            }),
            !plan.fallback_spec(),
    {
        Self::direct(PrecisionSpec::float(1))
    }
}


/// ASCII letters `A` to `Z` lowered to `a` to `z`; every other character kept.
pub open spec fn ascii_lowercase(text: Seq<char>) -> Seq<char> {
    text.map_values(
        |c: char|
            if 'A' <= c && c <= 'Z' {
                ((c as u32) + 32) as char
            } else {
                c
            },
    )
}

/// `str::to_ascii_lowercase`: std documents that it maps the ASCII letters
/// `A` to `Z` to `a` to `z` and keeps every other character.
#[verifier::external_body]
fn to_ascii_lowercase(text: &str) -> (lowered: String)
    ensures
        lowered@ == ascii_lowercase(text@),
{
    text.to_ascii_lowercase()
}

/// The technique a name selects, ignoring ASCII case.
pub open spec fn technique_named(name: Seq<char>) -> Option<PrecisionTechnique> {
    let lowered = ascii_lowercase(name);
    if lowered == "float"@ || lowered == "f64"@ {
        Some(PrecisionTechnique::Float)
    } else if lowered == "fixed"@ {
        Some(PrecisionTechnique::Fixed)
    } else {
        None
    }
}

/// A validated and normalized precision from a technique name and a level,
/// or the message that rejects them.
pub open spec fn parsed_precision(name: Seq<char>, level: usize) -> Result<
    PrecisionSpec,
    Seq<char>,
> {
    match technique_named(name) {
        None => Err("unknown precision technique: "@ + ascii_lowercase(name)),
        Some(technique) => checked_spec(PrecisionSpec { technique, level }),
    }
}

/// The method that the settings select, or the message that rejects them.
pub open spec fn planned_method(method: Seq<char>, technique: Seq<char>, level: usize) -> Result<
    RenderMethod,
    Seq<char>,
> {
    if method == "multiprecision"@ {
        Ok(
            RenderMethod::Direct {
                precision: PrecisionSpec { technique: PrecisionTechnique::Fixed, level: 2 },
            },
        )
    } else if method == "f64"@ || method == "direct"@ {
        match parsed_precision(technique, level) {
            Ok(precision) => Ok(RenderMethod::Direct { precision }),
            Err(message) => Err(message),
        }
    } else if method == "perturbation"@ {
        match parsed_precision(technique, level) {
            Ok(seed) => Ok(
                RenderMethod::Perturbation {
                    seed,
                    delta: PrecisionSpec { technique: PrecisionTechnique::Float, level: 1 },
                },
            ),
            Err(message) => Err(message),
        }
    } else {
        Err("unknown rendering method: "@ + method)
    }
}

fn parse_precision(technique: &str, level: usize) -> (result: Result<PrecisionSpec, String>)
    ensures
        match parsed_precision(technique@, level) {
            Ok(spec) => result == Ok::<PrecisionSpec, String>(spec),
            Err(message) => result is Err && result->Err_0@ == message,
        },
{
    let lowered = to_ascii_lowercase(technique);
    let technique = if lowered == String::from_str("float") || lowered == String::from_str("f64") {
        PrecisionTechnique::Float
    } else if lowered == String::from_str("fixed") {
        PrecisionTechnique::Fixed
    } else {
        return Err(String::from_str("unknown precision technique: ").concat(lowered.as_str()));
    };
    match (PrecisionSpec { technique, level }).validate_and_normalize() {
        Ok(spec) => Ok(spec),
        Err(message) => Err(String::from_str(message)),
    }
}

/// Multiprecision always renders directly in two-limb fixed point, whatever
/// technique and level the settings name.
pub proof fn lemma_multiprecision_is_fixed_two(technique: Seq<char>, level: usize)
    ensures
        planned_method("multiprecision"@, technique, level) == Ok::<RenderMethod, Seq<char>>(
            RenderMethod::Direct {
                precision: PrecisionSpec { technique: PrecisionTechnique::Fixed, level: 2 },
            },
        ),
{
}

impl PrecisionDecisionManager {
    /// The render plan that the settings select: the method, its validated and
    /// normalized precisions, and the fallback flag.
    pub fn from_config(config: &PrecisionSettings) -> (result: Result<PrecisionRenderPlan, String>)
        ensures
            match planned_method(
                config.rendering_method@,
                config.precision_technique@,
                config.precision_level,
            ) {
                Ok(method) => result is Ok && result->Ok_0.method_spec() == method
                    && result->Ok_0.fallback_spec() == config.perturbation_fallback,
                Err(message) => result is Err && result->Err_0@ == message,
            },
            config.rendering_method@ == "multiprecision"@ ==> {
                &&& result is Ok
                &&& result->Ok_0.method_spec() == (RenderMethod::Direct {
                    precision: PrecisionSpec { technique: PrecisionTechnique::Fixed, level: 2 },
                })
                &&& result->Ok_0.fallback_spec() == config.perturbation_fallback
            },
            config.rendering_method@ == "perturbation"@ && result is Ok ==> (result->Ok_0.method_spec() matches RenderMethod::Perturbation { delta, .. } && delta == (PrecisionSpec {
                technique: PrecisionTechnique::Float,
                level: 1,
            })),
            result is Ok ==> method_is_valid(result->Ok_0.method_spec()) && normalize_method(
                result->Ok_0.method_spec(),
            ) == result->Ok_0.method_spec(),
            config.rendering_method@ != "multiprecision"@ && config.rendering_method@ != "f64"@
                && config.rendering_method@ != "direct"@ && config.rendering_method@
                != "perturbation"@ ==> result is Err,
    {
        proof {
            reveal_strlit("perturbation");
            reveal_strlit("multiprecision");
            reveal_strlit("f64");
            reveal_strlit("direct");
            assert("perturbation"@[0] != "multiprecision"@[0]);
            assert("perturbation"@[0] != "f64"@[0]);
            assert("perturbation"@[0] != "direct"@[0]);
        }
        let method_name = &config.rendering_method;
        let method = if *method_name == String::from_str("multiprecision") {
            proof {
                reveal_strlit("fixed");
                reveal_strlit("float");
                reveal_strlit("f64");
                assert(ascii_lowercase("fixed"@) =~= "fixed"@);
                assert("fixed"@ != "float"@ && "fixed"@ != "f64"@) by {
                    assert("fixed"@[1] != "float"@[1]);
                }
            }
            match parse_precision("fixed", 2) {
                Ok(precision) => RenderMethod::Direct { precision },
                Err(message) => return Err(message),
            }
        } else if *method_name == String::from_str("f64") || *method_name == String::from_str(
            "direct",
        ) {
            match parse_precision(config.precision_technique.as_str(), config.precision_level) {
                Ok(precision) => RenderMethod::Direct { precision },
                Err(message) => return Err(message),
            }
        } else if *method_name == String::from_str("perturbation") {
            match parse_precision(config.precision_technique.as_str(), config.precision_level) {
                Ok(seed) => RenderMethod::Perturbation { seed, delta: PrecisionSpec::float(1) },
                Err(message) => return Err(message),
            }
        } else {
            return Err(String::from_str("unknown rendering method: ").concat(method_name.as_str()));
        };
        proof {
            assert(normalize_method(method) == method);
        }
        match PrecisionRenderPlan::new(method) {
            Ok(plan) => Ok(plan.with_perturbation_fallback(config.perturbation_fallback)),
            Err(message) => Err(String::from_str(message)),
        }
    }
}

} // verus!
