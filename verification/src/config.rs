//! The settings of a render and the names of the preset scenes.
use vstd::prelude::*;
use vstd::string::StrSliceExecFns;

verus! {

/// The preset scenes.
#[derive(Copy, Clone, Debug, PartialEq, Eq, Structural)]
pub enum Scene {
    Random,
    TwoSpheres,
    Balls,
    BirdsEyeView,
    ValueNoise1,
    ValueNoise2,
    ValueNoisePink,
    ValueTurbulence,
    ValueMarbled,
    PerlinNoise1,
    PerlinNoise2,
    PerlinNoisePink,
    PerlinTurbulence,
    PerlinMarbled,
}

/// A name that is not the name of a scene.
#[derive(Debug)]
pub struct SceneError {
    /// The name as it was given.
    pub input: String,
}

impl Scene {
    /// The name of the scene, spelled as the variant is.
    pub open spec fn label(self) -> Seq<char> {
        match self {
            Scene::Random => "Random"@,
            Scene::TwoSpheres => "TwoSpheres"@,
            Scene::Balls => "Balls"@,
            Scene::BirdsEyeView => "BirdsEyeView"@,
            Scene::ValueNoise1 => "ValueNoise1"@,
            Scene::ValueNoise2 => "ValueNoise2"@,
            Scene::ValueNoisePink => "ValueNoisePink"@,
            Scene::ValueTurbulence => "ValueTurbulence"@,
            Scene::ValueMarbled => "ValueMarbled"@,
            Scene::PerlinNoise1 => "PerlinNoise1"@,
            Scene::PerlinNoise2 => "PerlinNoise2"@,
            Scene::PerlinNoisePink => "PerlinNoisePink"@,
            Scene::PerlinTurbulence => "PerlinTurbulence"@,
            Scene::PerlinMarbled => "PerlinMarbled"@,
        }
    }

    /// The name of the scene.
    pub fn name(&self) -> (name: &'static str)
        ensures
            name@ == self.label(),
    {
        match self {
            Scene::Random => "Random",
            Scene::TwoSpheres => "TwoSpheres",
            Scene::Balls => "Balls",
            Scene::BirdsEyeView => "BirdsEyeView",
            Scene::ValueNoise1 => "ValueNoise1",
            Scene::ValueNoise2 => "ValueNoise2",
            Scene::ValueNoisePink => "ValueNoisePink",
            Scene::ValueTurbulence => "ValueTurbulence",
            Scene::ValueMarbled => "ValueMarbled",
            Scene::PerlinNoise1 => "PerlinNoise1",
            Scene::PerlinNoise2 => "PerlinNoise2",
            Scene::PerlinNoisePink => "PerlinNoisePink",
            Scene::PerlinTurbulence => "PerlinTurbulence",
            Scene::PerlinMarbled => "PerlinMarbled",
        }
    }

    /// All scenes, in the order of their declaration.
    pub open spec fn listed() -> Seq<Scene> {
        seq![
            Scene::Random,
            Scene::TwoSpheres,
            Scene::Balls,
            Scene::BirdsEyeView,
            Scene::ValueNoise1,
            Scene::ValueNoise2,
            Scene::ValueNoisePink,
            Scene::ValueTurbulence,
            Scene::ValueMarbled,
            Scene::PerlinNoise1,
            Scene::PerlinNoise2,
            Scene::PerlinNoisePink,
            Scene::PerlinTurbulence,
            Scene::PerlinMarbled,
        ]
    }

    /// All scenes, in the order of their declaration.
    pub fn all() -> (scenes: Vec<Scene>)
        ensures
            scenes@ == Scene::listed(),
            forall|scene: Scene| scenes@.contains(scene),
    {
        let scenes = vec![
            Scene::Random,
            Scene::TwoSpheres,
            Scene::Balls,
            Scene::BirdsEyeView,
            Scene::ValueNoise1,
            Scene::ValueNoise2,
            Scene::ValueNoisePink,
            Scene::ValueTurbulence,
            Scene::ValueMarbled,
            Scene::PerlinNoise1,
            Scene::PerlinNoise2,
            Scene::PerlinNoisePink,
            Scene::PerlinTurbulence,
            Scene::PerlinMarbled,
        ];
        proof {
            assert(scenes@ =~= Scene::listed());
            assert forall|scene: Scene| scenes@.contains(scene) by {
                let at: int = match scene {
                    Scene::Random => 0,
                    Scene::TwoSpheres => 1,
                    Scene::Balls => 2,
                    Scene::BirdsEyeView => 3,
                    Scene::ValueNoise1 => 4,
                    Scene::ValueNoise2 => 5,
                    Scene::ValueNoisePink => 6,
                    Scene::ValueTurbulence => 7,
                    Scene::ValueMarbled => 8,
                    Scene::PerlinNoise1 => 9,
                    Scene::PerlinNoise2 => 10,
                    Scene::PerlinNoisePink => 11,
                    Scene::PerlinTurbulence => 12,
                    Scene::PerlinMarbled => 13,
                };
                assert(scenes@[at] == scene);
            }
        }
        scenes
    }
}

/// Whether two strings hold the same characters.
pub fn same_text(a: &str, b: &str) -> (same: bool)
    ensures
        same == (a@ == b@),
{
    let n = a.unicode_len();
    if n != b.unicode_len() {
        return false;
    }
    let mut i: usize = 0;
    while i < n
        invariant
            i <= n,
            n == a@.len(),
            n == b@.len(),
            forall|k: int| 0 <= k < i ==> a@[k] == b@[k],
        decreases n - i,
    {
        if a.get_char(i) != b.get_char(i) {
            return false;
        }
        i += 1;
    }
    assert(a@ =~= b@);
    true
}

/// Reads the name of a scene. Names are matched letter for letter, case
/// included.
pub fn parse_scene(s: &str) -> (parsed: Result<Scene, SceneError>)
    ensures
        match parsed {
            Ok(scene) => s@ == scene.label(),
            Err(e) => e.input@ == s@ && forall|scene: Scene| s@ != #[trigger] scene.label(),
        },
        forall|scene: Scene|
            s@ == #[trigger] scene.label() ==> parsed is Ok && parsed.unwrap() == scene,
{
    let scenes = Scene::all();
    let mut i: usize = 0;
    while i < scenes.len()
        invariant
            i <= scenes@.len(),
            forall|scene: Scene| scenes@.contains(scene),
            forall|k: int| 0 <= k < i ==> s@ != (#[trigger] scenes@[k]).label(),
        decreases scenes@.len() - i,
    {
        let scene = scenes[i];
        if same_text(s, scene.name()) {
            proof {
                assert forall|other: Scene| s@ == #[trigger] other.label() implies other
                    == scene by {
                    lemma_labels_differ(other, scene);
                }
            }
            return Ok(scene);
        }
        i += 1;
    }
    proof {
        assert forall|scene: Scene| s@ != #[trigger] scene.label() by {
            assert(scenes@.contains(scene));
            let k = choose|k: int| 0 <= k < scenes@.len() && scenes@[k] == scene;
            assert(s@ != scenes@[k].label());
        }
    }
    Err(SceneError { input: s.to_owned() })
}

impl core::str::FromStr for Scene {
    type Err = SceneError;

    /// Reads the name of a scene, as `parse_scene` does.
    fn from_str(s: &str) -> (parsed: Result<Scene, SceneError>)
        ensures
            match parsed {
                Ok(scene) => s@ == scene.label(),
                Err(e) => e.input@ == s@ && forall|scene: Scene| s@ != #[trigger] scene.label(),
            },
            forall|scene: Scene|
                s@ == #[trigger] scene.label() ==> parsed is Ok && parsed.unwrap() == scene,
    {
        parse_scene(s)
    }
}

/// Whether antialiasing stays on, given how often the flag that disables it
/// was passed.
pub fn invert_bool(i: u64) -> (on: bool)
    ensures
        on == (i == 0),
{
    i == 0
}

/// The settings of a render.
#[derive(Copy, Clone, Debug)]
pub struct Config {
    /// Width of the render, in pixels.
    pub width: usize,
    /// Height of the render, in pixels.
    pub height: usize,
    /// The time between two updates of the display, in nanoseconds.
    pub delay_nanos: u64,
    /// Whether samples are spread over the pixel.
    pub antialias: bool,
    /// Number of samples per pixel.
    pub samples: u16,
    /// Maximum ray bounce depth.
    pub max_depth: u32,
    /// The seed of the random stream, if one is fixed.
    pub seed: Option<u64>,
    /// The scene to render.
    pub scene: Scene,
}

/// Why a set of values is not a configuration.
#[derive(Debug)]
pub enum ConfigError {
    ZeroWidth,
    ZeroHeight,
    ZeroSamples,
    ZeroDepth,
    UnknownScene(SceneError),
}

impl Config {
    /// Width, height, sample count and bounce depth are all positive.
    pub open spec fn valid(&self) -> bool {
        self.width > 0 && self.height > 0 && self.samples > 0 && self.max_depth > 0
    }

    /// The configuration made of the given values, with the display updated
    /// thirty times a second. `no_aa` counts how often antialiasing was switched
    /// off. The four sizes are checked in the order of the parameters, then the
    /// name of the scene is read.
    pub fn new(
        width: usize,
        height: usize,
        no_aa: u64,
        samples: u16,
        max_depth: u32,
        seed: Option<u64>,
        scene: &str,
    ) -> (made: Result<Config, ConfigError>)
        ensures
            made is Ok <==> width > 0 && height > 0 && samples > 0 && max_depth > 0 && exists|
                known: Scene,
            |
                scene@ == known.label(),
            made matches Ok(config) ==> {
                &&& config.valid()
                &&& config.width == width
                &&& config.height == height
                &&& config.delay_nanos == 33_333_333
                &&& config.antialias == (no_aa == 0)
                &&& config.samples == samples
                &&& config.max_depth == max_depth
                &&& config.seed == seed
                &&& config.scene.label() == scene@
            },
            made matches Err(e) ==> match e {
                ConfigError::ZeroWidth => width == 0,
                ConfigError::ZeroHeight => width > 0 && height == 0,
                ConfigError::ZeroSamples => width > 0 && height > 0 && samples == 0,
                ConfigError::ZeroDepth => width > 0 && height > 0 && samples > 0 && max_depth
                    == 0,
                ConfigError::UnknownScene(unknown) => width > 0 && height > 0 && samples > 0
                    && max_depth > 0 && unknown.input@ == scene@,
            },
    {
        if width == 0 {
            return Err(ConfigError::ZeroWidth);
        }
        if height == 0 {
            return Err(ConfigError::ZeroHeight);
        }
        if samples == 0 {
            return Err(ConfigError::ZeroSamples);
        }
        if max_depth == 0 {
            return Err(ConfigError::ZeroDepth);
        }
        match parse_scene(scene) {
            Ok(known) => {
                assert(scene@ == known.label());
                Ok(
                    Config {
                        width,
                        height,
                        delay_nanos: 33_333_333,
                        antialias: invert_bool(no_aa),
                        samples,
                        max_depth,
                        seed,
                        scene: known,
                    },
                )
            },
            Err(unknown) => Err(ConfigError::UnknownScene(unknown)),
        }
    }
}

impl Default for Config {
    /// A render of 1024 by 576 pixels of the scene `Random`, with 100 samples per
    /// pixel, 100 bounces, antialiasing on and no fixed seed.
    fn default() -> (config: Config)
        ensures
            config.valid(),
            config.width == 1024,
            config.height == 576,
            config.delay_nanos == 33_333_333,
            config.antialias,
            config.samples == 100,
            config.max_depth == 100,
            config.seed is None,
            config.scene == Scene::Random,
    {
        Config {
            width: 1024,
            height: 576,
            delay_nanos: 33_333_333,
            antialias: true,
            samples: 100,
            max_depth: 100,
            seed: None,
            scene: Scene::Random,
        }
    }
}

/// No two scenes share a name.
pub proof fn lemma_labels_differ(a: Scene, b: Scene)
    requires
        a.label() == b.label(),
    ensures
        a == b,
{
    reveal_strlit("Random");
    reveal_strlit("TwoSpheres");
    reveal_strlit("Balls");
    reveal_strlit("BirdsEyeView");
    reveal_strlit("ValueNoise1");
    reveal_strlit("ValueNoise2");
    reveal_strlit("ValueNoisePink");
    reveal_strlit("ValueTurbulence");
    reveal_strlit("ValueMarbled");
    reveal_strlit("PerlinNoise1");
    reveal_strlit("PerlinNoise2");
    reveal_strlit("PerlinNoisePink");
    reveal_strlit("PerlinTurbulence");
    reveal_strlit("PerlinMarbled");
    if a != b {
        let x = a.label();
        let y = b.label();
        assert(x.len() == y.len());
        assert(x[0] == y[0]);
        assert(x[5] == y[5]);
        if x.len() > 10 {
            assert(x[10] == y[10]);
        }
        if x.len() > 11 {
            assert(x[11] == y[11]);
        }
    }
}

} // verus!
