//! What installing the results into the browsers consists of.
use vstd::prelude::*;
use crate::chromium::{chromium_browsers, chromium_browsers_spec};

verus! {

broadcast use vstd::string::group_string_axioms;

/// One step of the installation, done in order; a failing step ends it.
pub enum InstallStep {
    /// Copy the results into each Firefox profile.
    Firefox,
    /// Pack the Firefox extension and write the policies that install it.
    FirefoxPolicy,
    /// Refresh the Chromium extension for the browser of this name.
    Chromium(String),
    /// Copy the results to the outputs of the older managers.
    LegacyCopy,
}

/// The message logged when there is nothing to install.
pub open spec fn nothing_to_install() -> Seq<char> {
    "No result.css/result.js/result.chrome.css/theme.json found. Skipping install."@
}

/// The installation of the results, given which of `result.css`,
/// `result.js`, `result.chrome.css` and `theme.json` exist: nothing (and a
/// log line) where none does; else Firefox, the Firefox policy, each of the
/// Chromium-based browsers, and the legacy outputs.
pub fn install_all(
    css_exists: bool,
    js_exists: bool,
    chrome_css_exists: bool,
    theme_exists: bool,
    logs: &mut Vec<String>,
) -> (steps: Vec<InstallStep>)
    ensures
        !(css_exists || js_exists || chrome_css_exists || theme_exists) ==> {
            &&& steps.len() == 0
            &&& final(logs)@.len() == old(logs)@.len() + 1
            &&& final(logs)@.drop_last() == old(logs)@
            &&& final(logs)@.last()@ == nothing_to_install()
        },
        (css_exists || js_exists || chrome_css_exists || theme_exists) ==> {
            &&& final(logs)@ == old(logs)@
            &&& steps.len() == 8
            &&& steps@[0] is Firefox
            &&& steps@[1] is FirefoxPolicy
            &&& forall|i: int|
                2 <= i < 7 ==> (#[trigger] steps@[i]) is Chromium && steps@[i]->Chromium_0@
                    == chromium_browsers_spec()[i - 2]
            &&& steps@[7] is LegacyCopy
        },
{
    let mut steps: Vec<InstallStep> = Vec::new();
    if !(css_exists || js_exists || chrome_css_exists || theme_exists) {
        let ghost before = logs@;
        logs.push(
            String::from_str(
                "No result.css/result.js/result.chrome.css/theme.json found. Skipping install.",
            ),
        );
        assert(logs@.drop_last() =~= before);
        return steps;
    }
    steps.push(InstallStep::Firefox);
    steps.push(InstallStep::FirefoxPolicy);
    let browsers = chromium_browsers();
    let ghost l0 = logs@;
    assert(browsers@.len() == 5) by {
        assert(browsers@.map_values(|s: String| s@).len() == 5);
    }
    let mut i: usize = 0;
    while i < browsers.len()
        invariant
            i <= browsers.len(),
            browsers@.len() == 5,
            logs@ == l0,
            browsers@.map_values(|s: String| s@) == chromium_browsers_spec(),
            steps.len() == 2 + i,
            steps@[0] is Firefox,
            steps@[1] is FirefoxPolicy,
            forall|k: int|
                2 <= k < 2 + i ==> (#[trigger] steps@[k]) is Chromium && steps@[k]->Chromium_0@
                    == chromium_browsers_spec()[k - 2],
        decreases browsers.len() - i,
    {
        assert(browsers@[i as int]@ == chromium_browsers_spec()[i as int]);
        steps.push(InstallStep::Chromium(browsers[i].clone()));
        i = i + 1;
    }
    steps.push(InstallStep::LegacyCopy);
    steps
}

} // verus!
