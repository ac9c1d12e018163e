//! The options of an optimization run, and the configuration of the
//! transformation units that they ask for.

use std::path::PathBuf;
use vstd::prelude::*;

verus! {

/// `std::path::PathBuf`, carried through as it is.
#[verifier::external_type_specification]
#[verifier::external_body]
pub struct ExPathBuf(PathBuf);

/// The options of the `optimize` command.
pub struct OptimizeArgs {
    /// Input SVG file
    pub input: PathBuf,
    /// Output SVG file
    pub output: PathBuf,
    /// Enable path optimization
    pub optimize_paths: bool,
    /// Decimal places for path optimization
    pub path_decimals: usize,
    /// Enable gradient deduplication
    pub dedupe_gradients: bool,
    /// Enable ID removal
    pub remove_ids: bool,
    /// Enable data attribute removal
    pub remove_data_attrs: bool,
    /// IDs to preserve
    pub preserve_ids: Option<Vec<String>>,
}

/// The settings of the path optimizer.
pub struct PathOptimizerConfig {
    pub decimal_places: usize,
}

/// The settings of the ID remover.
pub struct IdRemoverConfig {
    pub enabled: bool,
    pub preserve: Vec<String>,
}

/// Which transformation units a run asks for, and their settings.
pub struct PluginConfig {
    pub path_optimizer: Option<PathOptimizerConfig>,
    pub gradient_deduplicator: bool,
    pub id_remover: IdRemoverConfig,
    pub data_attr_remover: bool,
}

/// The texts of a list of strings.
pub open spec fn text_views(texts: Seq<String>) -> Seq<Seq<char>> {
    Seq::new(texts.len(), |i: int| texts[i]@)
}

impl Default for IdRemoverConfig {
    /// Disabled, with no ID to preserve.
    fn default() -> (config: Self)
        ensures
            !config.enabled,
            config.preserve@.len() == 0,
    {
        IdRemoverConfig { enabled: false, preserve: Vec::new() }
    }
}

impl Default for PluginConfig {
    /// No unit enabled.
    fn default() -> (config: Self)
        ensures
            config.path_optimizer is None,
            !config.gradient_deduplicator,
            !config.id_remover.enabled,
            config.id_remover.preserve@.len() == 0,
            !config.data_attr_remover,
    {
        PluginConfig {
            path_optimizer: None,
            gradient_deduplicator: false,
            id_remover: IdRemoverConfig::default(),
            data_attr_remover: false,
        }
    }
}

/// A copy of `texts`.
fn copy_texts(texts: &Vec<String>) -> (copy: Vec<String>)
    ensures
        text_views(copy@) == text_views(texts@),
{
    let mut copy: Vec<String> = Vec::new();
    let mut i: usize = 0;
    while i < texts.len()
        invariant
            i <= texts.len(),
            copy@.len() == i,
            forall|j: int| 0 <= j < i ==> (#[trigger] copy@[j])@ == texts@[j]@,
        decreases texts.len() - i,
    {
        copy.push(texts[i].clone());
        i += 1;
    }
    assert(text_views(copy@) =~= text_views(texts@));
    copy
}

impl PluginConfig {
    /// Whether the configuration is what `args` ask for.
    pub open spec fn matches_args(self, args: &OptimizeArgs) -> bool {
        &&& self.path_optimizer is Some <==> args.optimize_paths
        &&& args.optimize_paths ==> self.path_optimizer->0.decimal_places == args.path_decimals
        &&& self.gradient_deduplicator == args.dedupe_gradients
        &&& self.id_remover.enabled == args.remove_ids
        &&& text_views(self.id_remover.preserve@) == match args.preserve_ids {
            Some(ids) => text_views(ids@),
            None => Seq::empty(),
        }
        &&& self.data_attr_remover == args.remove_data_attrs
    }
}

impl vstd::std_specs::convert::FromSpecImpl<&OptimizeArgs> for PluginConfig {
    /// The conversion copies the IDs to preserve, so its result is stated
    /// by `matches_args`, over what the strings hold.
    open spec fn obeys_from_spec() -> bool {
        false
    }

    open spec fn from_spec(args: &OptimizeArgs) -> Self {
        arbitrary()
    }
}

impl From<&OptimizeArgs> for PluginConfig {
    /// The configuration that `args` ask for: the path optimizer with
    /// `path_decimals` where `optimize_paths` is set, the IDs to preserve
    /// where any are named, and the three switches as they are.
    fn from(args: &OptimizeArgs) -> (config: Self)
        ensures
            config.matches_args(args),
    {
        let preserve = match &args.preserve_ids {
            Some(ids) => copy_texts(ids),
            None => Vec::new(),
        };
        assert(text_views(preserve@) =~= match args.preserve_ids {
            Some(ids) => text_views(ids@),
            None => Seq::empty(),
        });
        PluginConfig {
            path_optimizer: if args.optimize_paths {
                Some(PathOptimizerConfig { decimal_places: args.path_decimals })
            } else {
                None
            },
            gradient_deduplicator: args.dedupe_gradients,
            id_remover: IdRemoverConfig { enabled: args.remove_ids, preserve },
            data_attr_remover: args.remove_data_attrs,
        }
    }
}

} // verus!
