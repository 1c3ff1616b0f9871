use cube_editor::paths::ContentPath;
use cube_editor::player_build::{
    build_web_index, check_new_project_dir, desktop_binary_name, plan_script_copies, player_binary_name,
    required_scripts, NewProjectError,
};

fn p(text: &str) -> ContentPath {
    ContentPath::parse(text)
}

fn canvas_page(title: &str) -> String {
    format!(
        "<!DOCTYPE html>\n<html lang='en'>\n  <head>\n    <meta charset='utf-8' />\n    <meta name='viewport' content='width=device-width, initial-scale=1.0' />\n    <title>{title}</title>\n    <style>\n      body {{\n        margin: 0;\n        padding: 0;\n        font-family: -apple-system, BlinkMacSystemFont, 'Segoe UI', Roboto, sans-serif;\n        background: #141414;\n        color: #e0e0e0;\n        display: flex;\n        flex-direction: column;\n        min-height: 100vh;\n        align-items: center;\n        justify-content: center;\n      }}\n\n      #status {{\n        margin-top: 1rem;\n        font-size: 0.9rem;\n        opacity: 0.75;\n      }}\n\n      canvas {{\n        width: min(90vw, 960px);\n        height: min(90vh, 540px);\n        border: 1px solid #2a2a2a;\n        background: #050505;\n        box-shadow: 0 8px 24px rgba(0, 0, 0, 0.5);\n      }}\n    </style>\n  </head>\n  <body>\n    <canvas id='wgpu-app'></canvas>\n    <div id='status'>Loading project...</div>\n    <script type='module'>\n      import init from './pkg/player.js';\n\n      async function start() {{\n        const status = document.getElementById('status');\n        try {{\n          await init();\n          status.textContent = 'Project loaded successfully.';\n        }} catch (err) {{\n          console.error('Failed to start project', err);\n          status.textContent = 'Failed to start project: ' + err;\n        }}\n      }}\n\n      start();\n    </script>\n  </body>\n</html>\n"
    )
}

fn loader_page(title: &str) -> String {
    format!(
        r#"<!DOCTYPE html>
<html lang="en">
  <head>
    <meta charset="utf-8" />
    <meta name="viewport" content="width=device-width, initial-scale=1.0" />
    <title>{title}</title>
    <style>
      body {{
        margin: 0;
        padding: 0;
        font-family: -apple-system, BlinkMacSystemFont, 'Segoe UI', Roboto, sans-serif;
        background: #141414;
        color: #e0e0e0;
        display: flex;
        align-items: center;
        justify-content: center;
        min-height: 100vh;
      }}

      #status {{
        font-size: 1rem;
        opacity: 0.85;
      }}
    </style>
  </head>
  <body>
    <div id="status">Loading {title}…</div>
    <script type="module">
      async function init() {{
        try {{
          const wasm = await import("./pkg/player.js");
          if (typeof wasm.default === "function") {{
            await wasm.default();
          }}
          wasm.start_app();
          const status = document.getElementById("status");
          if (status) {{
            status.textContent = "";
          }}
        }} catch (err) {{
          console.error("Failed to start project", err);
          const status = document.getElementById("status");
          if (status) {{
            status.textContent = "Failed to start project: " + err;
          }}
        }}
      }}

      init();
    </script>
  </body>
</html>
"#
    )
}

#[test]
fn web_index_is_the_canvas_page() {
    assert_eq!(build_web_index("Space Game"), canvas_page("Space Game"));
    assert_eq!(build_web_index(""), canvas_page(""));
    assert!(build_web_index("X").contains("<title>X</title>"));
}

#[test]
fn loader_index_names_the_project_twice() {
    let page = cube_editor::project_io::build_web_index("Demo");
    assert_eq!(page, loader_page("Demo"));
    assert!(page.contains("<title>Demo</title>"));
    assert!(page.contains("Loading Demo…"));
}

#[test]
fn binary_names() {
    assert_eq!(desktop_binary_name("My Game!", ""), "My_Game");
    assert_eq!(desktop_binary_name("My Game!", ".exe"), "My_Game.exe");
    assert_eq!(desktop_binary_name("", ".exe"), "project.exe");
    assert_eq!(player_binary_name(""), "player");
    assert_eq!(player_binary_name(".exe"), "player.exe");
}

#[test]
fn new_project_folder_checks() {
    let dir = p("/home/me/new_game");
    assert!(check_new_project_dir(&dir, false, false, false).is_ok());
    assert!(check_new_project_dir(&dir, true, true, false).is_ok());
    match check_new_project_dir(&dir, true, false, false) {
        Err(NewProjectError::NotADirectory(q)) => assert_eq!(q, dir),
        _ => panic!("expected NotADirectory"),
    }
    match check_new_project_dir(&dir, true, true, true) {
        Err(NewProjectError::DirectoryNotEmpty(q)) => assert_eq!(q, dir),
        _ => panic!("expected DirectoryNotEmpty"),
    }
}

#[test]
fn required_scripts_are_sorted_and_unique() {
    let scripts = vec![p("scripts/b.rn"), p("scripts/a.rn"), p("scripts/b.rn"), p("main.rn")];
    let out = required_scripts(&scripts);
    assert_eq!(out, vec![p("main.rn"), p("scripts/a.rn"), p("scripts/b.rn")]);
    assert!(required_scripts(&vec![]).is_empty());
}

#[test]
fn script_copies_land_below_the_output() {
    let scripts = vec![p("scripts/b.rn"), p("scripts/a.rn"), p("scripts/a.rn")];
    let copies = plan_script_copies(&scripts, &p("/out/build"));
    let pairs: Vec<(String, String)> =
        copies.iter().map(|c| (c.source.display(), c.destination.display())).collect();
    assert_eq!(
        pairs,
        vec![
            ("scripts/a.rn".to_string(), "/out/build/scripts/a.rn".to_string()),
            ("scripts/b.rn".to_string(), "/out/build/scripts/b.rn".to_string()),
        ]
    );
}
