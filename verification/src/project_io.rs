//! The project's first web entry page: a status line that names the
//! project while the player loads.

use crate::text::string_from;
use vstd::prelude::*;

verus! {

/// The loading page up to the first use of the title.
pub const LOADER_HEAD: &'static str = "<!DOCTYPE html>\n<html lang=\"en\">\n  <head>\n    <meta charset=\"utf-8\" />\n    <meta name=\"viewport\" content=\"width=device-width, initial-scale=1.0\" />\n    <title>";

/// The loading page between the two uses of the title.
pub const LOADER_MIDDLE: &'static str = "</title>\n    <style>\n      body {\n        margin: 0;\n        padding: 0;\n        font-family: -apple-system, BlinkMacSystemFont, 'Segoe UI', Roboto, sans-serif;\n        background: #141414;\n        color: #e0e0e0;\n        display: flex;\n        align-items: center;\n        justify-content: center;\n        min-height: 100vh;\n      }\n\n      #status {\n        font-size: 1rem;\n        opacity: 0.85;\n      }\n    </style>\n  </head>\n  <body>\n    <div id=\"status\">Loading ";

/// The loading page after the second use of the title.
pub const LOADER_TAIL: &'static str = "…</div>\n    <script type=\"module\">\n      async function init() {\n        try {\n          const wasm = await import(\"./pkg/player.js\");\n          if (typeof wasm.default === \"function\") {\n            await wasm.default();\n          }\n          wasm.start_app();\n          const status = document.getElementById(\"status\");\n          if (status) {\n            status.textContent = \"\";\n          }\n        } catch (err) {\n          console.error(\"Failed to start project\", err);\n          const status = document.getElementById(\"status\");\n          if (status) {\n            status.textContent = \"Failed to start project: \" + err;\n          }\n        }\n      }\n\n      init();\n    </script>\n  </body>\n</html>\n";

/// The loading page, with the project's title in the page title and in the
/// status line.
pub open spec fn loader_index_model(title: Seq<char>) -> Seq<char> {
    LOADER_HEAD@ + title + LOADER_MIDDLE@ + title + LOADER_TAIL@
}

/// The `index.html` of a web build that shows `Loading <title>…` until the
/// player starts.
pub fn build_web_index(title: &str) -> (r: String)
    ensures
        r@ == loader_index_model(title@),
{
    let mut out = string_from(LOADER_HEAD);
    out.append(title);
    out.append(LOADER_MIDDLE);
    out.append(title);
    out.append(LOADER_TAIL);
    out
}

} // verus!
