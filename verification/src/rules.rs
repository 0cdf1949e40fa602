//! The embedded ruleset. Every rule is a row; adding an ecosystem is an edit
//! here, not code. Rows come in order of precedence: the first row that claims
//! a path wins.

use vstd::prelude::*;

verus! {

/// The rows that are compiled in.
pub const RULES: &'static str = "
[[detector]]
id = 'rust-target'
ecosystem = 'rust'
reclaim_dir = 'target'
marker = 'Cargo.toml'
safety = 'regenerable'
regenerate = 'cargo build'

[[detector]]
id = 'maven-target'
ecosystem = 'maven'
reclaim_dir = 'target'
marker = 'pom.xml'
safety = 'regenerable'
regenerate = 'mvn package'

[[detector]]
id = 'node-modules'
ecosystem = 'node'
reclaim_dir = 'node_modules'
marker = 'package.json'
safety = 'regenerable'
regenerate = 'npm install'

[[detector]]
id = 'nextjs'
ecosystem = 'node'
reclaim_dir = '.next'
marker = 'package.json'
safety = 'regenerable'
regenerate = 'next build'

[[detector]]
id = 'turbo'
ecosystem = 'node'
reclaim_dir = '.turbo'
marker = 'package.json'
safety = 'regenerable'
regenerate = 'turbo build'

[[detector]]
id = 'nuxt'
ecosystem = 'node'
reclaim_dir = '.nuxt'
marker = 'package.json'
safety = 'regenerable'
regenerate = 'nuxt build'

[[detector]]
id = 'python-venv'
ecosystem = 'python'
reclaim_dir = '.venv'
marker = 'pyproject.toml'
safety = 'regenerable'
regenerate = 'python -m venv .venv'

[[detector]]
id = 'python-venv-requirements'
ecosystem = 'python'
reclaim_dir = '.venv'
marker = 'requirements.txt'
safety = 'regenerable'
regenerate = 'python -m venv .venv'

[[detector]]
id = 'python-pycache'
ecosystem = 'python'
reclaim_dir = '__pycache__'
safety = 'regenerable'

[[detector]]
id = 'python-tox'
ecosystem = 'python'
reclaim_dir = '.tox'
marker = 'tox.ini'
safety = 'regenerable'
regenerate = 'tox'

[[detector]]
id = 'python-mypy-cache'
ecosystem = 'python'
reclaim_dir = '.mypy_cache'
safety = 'regenerable'
regenerate = 'mypy'

[[detector]]
id = 'python-pytest-cache'
ecosystem = 'python'
reclaim_dir = '.pytest_cache'
safety = 'regenerable'
regenerate = 'pytest'

[[detector]]
id = 'gradle-build'
ecosystem = 'gradle'
reclaim_dir = 'build'
marker = 'build.gradle'
safety = 'regenerable'
regenerate = 'gradle build'

[[detector]]
id = 'gradle-dot'
ecosystem = 'gradle'
reclaim_dir = '.gradle'
marker = 'build.gradle'
safety = 'regenerable'
regenerate = 'gradle build'

[[detector]]
id = 'dotnet-bin'
ecosystem = 'dotnet'
reclaim_dir = 'bin'
marker = '*.csproj'
safety = 'regenerable'
regenerate = 'dotnet build'

[[detector]]
id = 'dotnet-obj'
ecosystem = 'dotnet'
reclaim_dir = 'obj'
marker = '*.csproj'
safety = 'regenerable'
regenerate = 'dotnet build'

[[detector]]
id = 'go-bin'
ecosystem = 'go'
reclaim_dir = 'bin'
marker = 'go.mod'
safety = 'regenerable'
regenerate = 'go build'

[[detector]]
id = 'cocoapods'
ecosystem = 'cocoapods'
reclaim_dir = 'Pods'
marker = 'Podfile'
safety = 'regenerable'
regenerate = 'pod install'

[[detector]]
id = 'xcode-deriveddata'
ecosystem = 'xcode'
reclaim_dir = 'DerivedData'
marker = '*.xcodeproj'
safety = 'regenerable'
regenerate = 'xcodebuild'

[[detector]]
id = 'zig-cache'
ecosystem = 'zig'
reclaim_dir = '.zig-cache'
marker = 'build.zig'
safety = 'regenerable'
regenerate = 'zig build'

[[detector]]
id = 'zig-out'
ecosystem = 'zig'
reclaim_dir = 'zig-out'
marker = 'build.zig'
safety = 'regenerable'
regenerate = 'zig build'

[[detector]]
id = 'dart-tool'
ecosystem = 'dart'
reclaim_dir = '.dart_tool'
marker = 'pubspec.yaml'
safety = 'regenerable'
regenerate = 'dart pub get'

[[detector]]
id = 'elixir-build'
ecosystem = 'elixir'
reclaim_dir = '_build'
marker = 'mix.exs'
safety = 'regenerable'
regenerate = 'mix compile'

[[detector]]
id = 'elixir-deps'
ecosystem = 'elixir'
reclaim_dir = 'deps'
marker = 'mix.exs'
safety = 'regenerable'
regenerate = 'mix deps.get'

[[detector]]
id = 'php-vendor'
ecosystem = 'php'
reclaim_dir = 'vendor'
marker = 'composer.json'
safety = 'regenerable'
regenerate = 'composer install'

[[detector]]
id = 'git-worktree'
ecosystem = 'git'
kind = 'git_worktree'
safety = 'git_worktree'

[[detector]]
id = 'cachedir-tag'
ecosystem = 'cache'
kind = 'cachedir_tag'
safety = 'package_cache'
";

} // verus!
