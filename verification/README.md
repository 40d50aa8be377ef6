# website

The logic of a small Leptos website, verified with Verus.

- `src/` is the verified library: text operations (`text`), Unix path rules
  (`paths`), the URL prefix and directory slugs (`site`), blog posts
  (`posts`), static pages (`static_pages`), the tab widgets (`tabs`) and the
  click counter and query texts (`counter`).
- `app/` holds the Leptos components, server functions and file-system and
  environment reads that feed the library and show what it returns.
- `tests/` runs the library on concrete values, and checks the path and text
  rules against the standard library.
